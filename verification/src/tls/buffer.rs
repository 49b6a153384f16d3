//! A borrowed byte reader with a forward-only cursor.

use vstd::prelude::*;

verus! {

/// Reads a borrowed slice front to back.
pub struct BufReader<'a> {
    buf: &'a [u8],
    pos: usize,
}

impl<'a> BufReader<'a> {
    /// The cursor never passes the end of the slice.
    pub closed spec fn wf(&self) -> bool {
        self.pos <= self.buf@.len()
    }

    /// The whole underlying byte sequence.
    pub closed spec fn data(&self) -> Seq<u8> {
        self.buf@
    }

    /// How far the reader has advanced.
    pub closed spec fn position(&self) -> int {
        self.pos as int
    }

    /// A new reader over the given slice, at its start.
    pub fn new(buf: &'a [u8]) -> (r: Self)
        ensures
            r.wf(),
            r.data() == buf@,
            r.position() == 0,
    {
        BufReader { buf, pos: 0 }
    }

    /// How many bytes are left to read.
    pub fn left(&self) -> (r: usize)
        requires
            self.wf(),
        ensures
            r == self.data().len() - self.position(),
            0 <= self.position() <= self.data().len(),
    {
        self.buf.len() - self.pos
    }

    /// The next `size` bytes, if that many are left; the cursor moves
    /// past them.
    pub fn take(&mut self, size: usize) -> (r: Option<&'a [u8]>)
        requires
            old(self).wf(),
        ensures
            final(self).wf(),
            final(self).data() == old(self).data(),
            0 <= old(self).position() <= old(self).data().len(),
            0 <= final(self).position() <= final(self).data().len(),
            r is Some <==> old(self).position() + size <= old(self).data().len(),
            match r {
                Some(s) => s@ == old(self).data().subrange(
                    old(self).position(),
                    old(self).position() + size,
                ) && final(self).position() == old(self).position() + size,
                None => *final(self) == *old(self),
            },
    {
        if self.buf.len() - self.pos < size {
            return None;
        }
        let taken = &self.buf[self.pos..self.pos + size];
        self.pos = self.pos + size;
        Some(taken)
    }
}

} // verus!

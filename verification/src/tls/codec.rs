//! Encoding and decoding of handshake values as big-endian bytes.

use vstd::prelude::*;
use crate::tls::errors::{DecodeError, TlsResult};

verus! {

/// Big-endian bytes of a 16-bit value.
pub open spec fn be2(v: u16) -> Seq<u8> {
    seq![(v / 256) as u8, (v % 256) as u8]
}

/// The low three bytes of a 32-bit value, big-endian.
pub open spec fn be3(v: u32) -> Seq<u8> {
    seq![((v / 0x10000) % 256) as u8, ((v / 256) % 256) as u8, (v % 256) as u8]
}

/// Big-endian bytes of a 32-bit value.
pub open spec fn be4(v: u32) -> Seq<u8> {
    seq![
        (v / 0x1000000) as u8,
        ((v / 0x10000) % 256) as u8,
        ((v / 256) % 256) as u8,
        (v % 256) as u8,
    ]
}

/// Reads a borrowed slice front to back, handing out sub-readers for
/// length-prefixed chunks.
pub struct BufReader<'a> {
    buf: &'a [u8],
    pos: usize,
}

impl<'a> BufReader<'a> {
    /// The cursor never passes the end of the slice.
    pub closed spec fn wf(&self) -> bool {
        self.pos <= self.buf@.len()
    }

    /// The whole underlying byte sequence.
    pub closed spec fn data(&self) -> Seq<u8> {
        self.buf@
    }

    /// How far the reader has advanced.
    pub closed spec fn position(&self) -> int {
        self.pos as int
    }

    /// A new reader over the given slice, at its start.
    pub fn new(buf: &'a [u8]) -> (r: Self)
        ensures
            r.wf(),
            r.data() == buf@,
            r.position() == 0,
    {
        BufReader { buf, pos: 0 }
    }

    /// How many bytes are left to read.
    pub fn left(&self) -> (r: usize)
        requires
            self.wf(),
        ensures
            r == self.data().len() - self.position(),
            0 <= self.position() <= self.data().len(),
    {
        self.buf.len() - self.pos
    }

    /// The next `size` bytes, if that many are left; the cursor moves
    /// past them.
    pub fn take(&mut self, size: usize) -> (r: Option<&'a [u8]>)
        requires
            old(self).wf(),
        ensures
            final(self).wf(),
            final(self).data() == old(self).data(),
            0 <= old(self).position() <= old(self).data().len(),
            0 <= final(self).position() <= final(self).data().len(),
            r is Some <==> old(self).position() + size <= old(self).data().len(),
            match r {
                Some(s) => s@ == old(self).data().subrange(
                    old(self).position(),
                    old(self).position() + size,
                ) && final(self).position() == old(self).position() + size,
                None => *final(self) == *old(self),
            },
    {
        if self.buf.len() - self.pos < size {
            return None;
        }
        let taken = &self.buf[self.pos..self.pos + size];
        self.pos = self.pos + size;
        Some(taken)
    }

    /// A sub-reader over the next `size` bytes.
    pub fn sub(&mut self, size: usize) -> (r: TlsResult<BufReader<'a>, DecodeError>)
        requires
            old(self).wf(),
        ensures
            final(self).wf(),
            final(self).data() == old(self).data(),
            0 <= old(self).position() <= old(self).data().len(),
            0 <= final(self).position() <= final(self).data().len(),
            r is Ok <==> old(self).position() + size <= old(self).data().len(),
            match r {
                Ok(b) => b.wf() && b.position() == 0 && b.data() == old(self).data().subrange(
                    old(self).position(),
                    old(self).position() + size,
                ) && final(self).position() == old(self).position() + size,
                Err(_) => *final(self) == *old(self),
            },
    {
        match self.take(size) {
            Some(x) => Ok(BufReader::new(x)),
            None => Err(DecodeError::InvalidMessage("missing sub".to_owned())),
        }
    }
}

/// A handshake value that encodes to bytes and decodes from a reader.
///
/// `enc` is the exact byte image of a well-formed value; `dec` says
/// what `decode` yields from the reader's remaining bytes and how many
/// it consumes. The two need not be inverses: some structures decode a
/// narrower form than they emit.
pub trait Codec: View + Sized {
    /// The value can be encoded.
    spec fn wf(&self) -> bool;

    /// The bytes `encode` appends.
    spec fn enc(&self) -> Seq<u8>;

    /// The decoded view and consumed length for the given input, or
    /// `None` where decoding fails.
    spec fn dec(s: Seq<u8>) -> Option<(Self::V, int)>;

    /// Append this value's byte image.
    fn encode(&self, buf: &mut Vec<u8>)
        requires
            self.wf(),
        ensures
            final(buf)@ == old(buf)@ + self.enc(),
    ;

    /// Read one value from the reader.
    fn decode(r: &mut BufReader<'_>) -> (res: TlsResult<Self, DecodeError>)
        requires
            old(r).wf(),
        ensures
            final(r).wf(),
            final(r).data() == old(r).data(),
            old(r).position() <= final(r).position(),
            match res {
                Ok(v) => Self::dec(old(r).data().skip(old(r).position())) == Some(
                    (v@, final(r).position() - old(r).position()),
                ),
                Err(_) => Self::dec(old(r).data().skip(old(r).position())) is None,
            },
    ;
}

impl Codec for u8 {
    open spec fn wf(&self) -> bool {
        true
    }

    open spec fn enc(&self) -> Seq<u8> {
        seq![*self]
    }

    open spec fn dec(s: Seq<u8>) -> Option<(u8, int)> {
        if s.len() >= 1 {
            Some((s[0], 1))
        } else {
            None
        }
    }

    fn encode(&self, buf: &mut Vec<u8>) {
        buf.push(*self);
    }

    fn decode(r: &mut BufReader<'_>) -> (res: TlsResult<Self, DecodeError>) {
        match r.take(1) {
            Some(x) => Ok(x[0]),
            None => Err(DecodeError::InvalidMessage("missing u8".to_owned())),
        }
    }
}

impl Codec for u16 {
    open spec fn wf(&self) -> bool {
        true
    }

    open spec fn enc(&self) -> Seq<u8> {
        be2(*self)
    }

    open spec fn dec(s: Seq<u8>) -> Option<(u16, int)> {
        if s.len() >= 2 {
            Some(((s[0] * 256 + s[1]) as u16, 2))
        } else {
            None
        }
    }

    fn encode(&self, buf: &mut Vec<u8>) {
        buf.push((*self / 256) as u8);
        buf.push((*self % 256) as u8);
        proof {
            assert(buf@ =~= old(buf)@ + be2(*self));
        }
    }

    fn decode(r: &mut BufReader<'_>) -> (res: TlsResult<Self, DecodeError>) {
        match r.take(2) {
            Some(x) => Ok((x[0] as u16) * 256 + (x[1] as u16)),
            None => Err(DecodeError::InvalidMessage("missing u16".to_owned())),
        }
    }
}

impl Codec for u32 {
    open spec fn wf(&self) -> bool {
        true
    }

    open spec fn enc(&self) -> Seq<u8> {
        be4(*self)
    }

    open spec fn dec(s: Seq<u8>) -> Option<(u32, int)> {
        if s.len() >= 4 {
            Some(((s[0] * 0x1000000 + s[1] * 0x10000 + s[2] * 256 + s[3]) as u32, 4))
        } else {
            None
        }
    }

    fn encode(&self, buf: &mut Vec<u8>) {
        buf.push((*self / 0x1000000) as u8);
        buf.push(((*self / 0x10000) % 256) as u8);
        buf.push(((*self / 256) % 256) as u8);
        buf.push((*self % 256) as u8);
        proof {
            assert(buf@ =~= old(buf)@ + be4(*self));
        }
    }

    fn decode(r: &mut BufReader<'_>) -> (res: TlsResult<Self, DecodeError>) {
        match r.take(4) {
            Some(x) => Ok(
                (x[0] as u32) * 0x1000000 + (x[1] as u32) * 0x10000 + (x[2] as u32) * 256 + (
                x[3] as u32),
            ),
            None => Err(DecodeError::InvalidMessage("missing u32".to_owned())),
        }
    }
}

/// A 24-bit length carried in the low bits of a 32-bit value.
#[allow(non_camel_case_types)]
#[derive(Copy, Clone, Debug, Default)]
pub struct u24(pub u32);

impl View for u24 {
    type V = u32;

    open spec fn view(&self) -> u32 {
        self.0
    }
}

impl u24 {
    /// The three low bytes, big-endian; a high byte is dropped.
    pub fn to_be_bytes(&self) -> (r: [u8; 3])
        ensures
            r@ == be3(self.0),
    {
        let r = [((self.0 / 0x10000) % 256) as u8, ((self.0 / 256) % 256) as u8, (self.0
            % 256) as u8];
        proof {
            assert(r@ =~= be3(self.0));
        }
        r
    }
}

impl Codec for u24 {
    open spec fn wf(&self) -> bool {
        self.0 < 0x1000000
    }

    open spec fn enc(&self) -> Seq<u8> {
        be3(self.0)
    }

    open spec fn dec(s: Seq<u8>) -> Option<(u32, int)> {
        if s.len() >= 3 {
            Some(((s[0] * 0x10000 + s[1] * 256 + s[2]) as u32, 3))
        } else {
            None
        }
    }

    fn encode(&self, buf: &mut Vec<u8>) {
        buf.push(((self.0 / 0x10000) % 256) as u8);
        buf.push(((self.0 / 256) % 256) as u8);
        buf.push((self.0 % 256) as u8);
        proof {
            assert(buf@ =~= old(buf)@ + be3(self.0));
        }
    }

    fn decode(r: &mut BufReader<'_>) -> (res: TlsResult<Self, DecodeError>) {
        match r.take(3) {
            Some(x) => Ok(u24((x[0] as u32) * 0x10000 + (x[1] as u32) * 256 + (x[2] as u32))),
            None => Err(DecodeError::InvalidMessage("missing u24".to_owned())),
        }
    }
}

/// Width of a list's length prefix.
#[derive(Copy, Clone, Debug)]
pub enum ListLength {
    U8,
    U16,
    U24,
}

/// The bytes of a length prefix of the given width.
pub open spec fn prefix_bytes(size: ListLength, n: nat) -> Seq<u8> {
    match size {
        ListLength::U8 => seq![n as u8],
        ListLength::U16 => be2(n as u16),
        ListLength::U24 => be3(n as u32),
    }
}

/// The largest payload a prefix of the given width can describe.
pub open spec fn prefix_max(size: ListLength) -> nat {
    match size {
        ListLength::U8 => 0xFF,
        ListLength::U16 => 0xFFFF,
        ListLength::U24 => 0xFFFFFF,
    }
}

/// Append `payload` preceded by its length in the given width.
pub fn extend_with_prefix_length(size: ListLength, buf: &mut Vec<u8>, payload: &[u8])
    requires
        payload@.len() <= prefix_max(size),
    ensures
        final(buf)@ == old(buf)@ + prefix_bytes(size, payload@.len()) + payload@,
{
    let ghost b0 = buf@;
    let n = payload.len();
    match size {
        ListLength::U8 => {
            buf.push(n as u8);
        },
        ListLength::U16 => {
            buf.push(((n as u16) / 256) as u8);
            buf.push(((n as u16) % 256) as u8);
        },
        ListLength::U24 => {
            buf.push((((n as u32) / 0x10000) % 256) as u8);
            buf.push((((n as u32) / 256) % 256) as u8);
            buf.push(((n as u32) % 256) as u8);
        },
    }
    proof {
        assert(buf@ =~= b0 + prefix_bytes(size, payload@.len()));
    }
    let ghost b1 = buf@;
    buf.extend_from_slice(payload);
    proof {
        assert(buf@ =~= (b0 + prefix_bytes(size, payload@.len())) + payload@);
    }
}

/// A value that may stand in a length-prefixed list, naming the width
/// of the list's prefix.
pub trait TlsListElement {
    fn size_len() -> ListLength;
}

/// Decoding an encoded 8-bit value gives it back and consumes one
/// byte, whatever follows.
pub proof fn lemma_u8_codec_round_trip(v: u8, rest: Seq<u8>)
    ensures
        <u8 as Codec>::dec(v.enc() + rest) == Some((v, 1int)),
{
    let s = v.enc() + rest;
    assert(s[0] == v);
}

/// Decoding an encoded 16-bit value gives it back and consumes two
/// bytes, whatever follows.
pub proof fn lemma_u16_codec_round_trip(v: u16, rest: Seq<u8>)
    ensures
        <u16 as Codec>::dec(be2(v) + rest) == Some((v, 2int)),
{
    let s = be2(v) + rest;
    assert(s[0] == (v / 256) as u8 && s[1] == (v % 256) as u8);
}

/// Decoding the three encoded low bytes of a `u24` gives back its
/// value reduced to 24 bits.
pub proof fn lemma_u24_codec_round_trip(v: u24, rest: Seq<u8>)
    requires
        v.wf(),
    ensures
        <u24 as Codec>::dec(be3(v.0) + rest) == Some((v.0, 3int)),
{
    let s = be3(v.0) + rest;
    assert(s[0] == ((v.0 / 0x10000) % 256) as u8);
    assert(s[1] == ((v.0 / 256) % 256) as u8);
    assert(s[2] == (v.0 % 256) as u8);
}

/// Decoding an encoded 32-bit value gives it back and consumes four
/// bytes, whatever follows.
pub proof fn lemma_u32_codec_round_trip(v: u32, rest: Seq<u8>)
    ensures
        <u32 as Codec>::dec(be4(v) + rest) == Some((v, 4int)),
{
    let s = be4(v) + rest;
    assert(s[0] == (v / 0x1000000) as u8);
    assert(s[1] == ((v / 0x10000) % 256) as u8);
    assert(s[2] == ((v / 256) % 256) as u8);
    assert(s[3] == (v % 256) as u8);
}

} // verus!

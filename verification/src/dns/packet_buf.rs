//! Fixed-capacity byte cursor over one DNS packet.

use vstd::prelude::*;
use crate::dns::errors::DnsError;
use crate::dns::name::{
    lemma_encode_labels_partial_append,
    encode_labels, encode_labels_partial, encode_name, labels_fit, labels_of, lower_bytes,
    parse_name_at, join_name, lemma_encode_labels_append, lemma_encode_labels_terminated,
    lemma_first_dot_from_scan, lemma_join_name_assoc, NameRead, CAPACITY, MAX_JUMPS,
};

verus! {

/// Result type of the DNS codec and resolver.
pub type DnsResult<T = ()> = Result<T, DnsError>;

/// Big-endian bytes of a 16-bit value.
pub open spec fn u16_bytes(v: u16) -> Seq<u8> {
    seq![(v / 256) as u8, (v % 256) as u8]
}

/// Big-endian bytes of a 32-bit value.
pub open spec fn u32_bytes(v: u32) -> Seq<u8> {
    seq![
        (v / 0x1000000) as u8,
        ((v / 0x10000) % 256) as u8,
        ((v / 256) % 256) as u8,
        (v % 256) as u8,
    ]
}

/// Big-endian bytes of a 128-bit value.
pub open spec fn u128_bytes(v: u128) -> Seq<u8> {
    u32_bytes((v / 0x1000000000000000000000000) as u32) + u32_bytes(
        ((v / 0x10000000000000000) % 0x100000000) as u32,
    ) + u32_bytes(((v / 0x100000000) % 0x100000000) as u32) + u32_bytes((v % 0x100000000) as u32)
}

/// The 16-bit value whose big-endian bytes sit at `pos`.
pub open spec fn word16(buf: Seq<u8>, pos: int) -> u16 {
    (buf[pos] * 256 + buf[pos + 1]) as u16
}

/// The 32-bit value whose big-endian bytes sit at `pos`.
pub open spec fn word32(buf: Seq<u8>, pos: int) -> u32 {
    (buf[pos] * 0x1000000 + buf[pos + 1] * 0x10000 + buf[pos + 2] * 256 + buf[pos + 3]) as u32
}

/// The 128-bit value whose big-endian bytes sit at `pos`.
pub open spec fn word128(buf: Seq<u8>, pos: int) -> u128 {
    (word32(buf, pos) * 0x1000000000000000000000000 + word32(buf, pos + 4) * 0x10000000000000000
        + word32(buf, pos + 8) * 0x100000000 + word32(buf, pos + 12)) as u128
}

/// `buf` with `bytes` written over the range starting at `pos`.
pub open spec fn spliced(buf: Seq<u8>, pos: int, bytes: Seq<u8>) -> Seq<u8> {
    buf.take(pos) + bytes + buf.skip(pos + bytes.len())
}

/// Consecutive writes splice like one write of the concatenation.
pub proof fn lemma_spliced_spliced(buf: Seq<u8>, pos: int, x: Seq<u8>, y: Seq<u8>)
    requires
        0 <= pos,
        pos + x.len() + y.len() <= buf.len(),
    ensures
        spliced(spliced(buf, pos, x), pos + x.len(), y) == spliced(buf, pos, x + y),
{
    assert(spliced(spliced(buf, pos, x), pos + x.len(), y) =~= spliced(buf, pos, x + y));
}

/// Backpatching inside an already-written range rewrites that part of
/// the written bytes.
pub proof fn lemma_spliced_patch(buf: Seq<u8>, pos: int, x: Seq<u8>, q: int, y: Seq<u8>)
    requires
        0 <= pos,
        pos + x.len() <= buf.len(),
        pos <= q,
        q + y.len() <= pos + x.len(),
    ensures
        spliced(spliced(buf, pos, x), q, y) == spliced(
            buf,
            pos,
            x.take(q - pos) + y + x.skip(q - pos + y.len()),
        ),
{
    assert(spliced(spliced(buf, pos, x), q, y) =~= spliced(
        buf,
        pos,
        x.take(q - pos) + y + x.skip(q - pos + y.len()),
    ));
}

/// Fixed-capacity byte buffer holding one DNS packet, with a cursor.
///
/// All reads and writes at positions at or past the capacity fail with
/// `EndOfBuffer` rather than panic. The cursor only moves forward on
/// reads and writes; `seek` may place it anywhere.
pub struct BytePacketBuffer {
    pub buf: Vec<u8>,
    pub pos: usize,
}

impl BytePacketBuffer {
    /// The buffer always holds exactly `CAPACITY` bytes.
    pub open spec fn wf(&self) -> bool {
        self.buf@.len() == CAPACITY
    }

    pub fn new() -> (r: BytePacketBuffer)
        ensures
            r.wf(),
            r.pos == 0,
            r.buf@ == Seq::new(CAPACITY as nat, |i: int| 0u8),
    {
        let buf: Vec<u8> = vec![0u8; CAPACITY];
        proof {
            assert(buf@ =~= Seq::new(CAPACITY as nat, |i: int| 0u8));
        }
        BytePacketBuffer { buf, pos: 0 }
    }

    pub fn pos(&self) -> (r: usize)
        ensures
            r == self.pos,
    {
        self.pos
    }

    /// Move the cursor forward without reading.
    pub fn step(&mut self, steps: usize) -> (r: DnsResult)
        requires
            old(self).pos + steps <= usize::MAX,
        ensures
            r is Ok,
            final(self).buf == old(self).buf,
            final(self).pos == old(self).pos + steps,
    {
        self.pos = self.pos + steps;
        Ok(())
    }

    /// Place the cursor at an arbitrary position.
    pub fn seek(&mut self, pos: usize) -> (r: DnsResult)
        ensures
            r is Ok,
            final(self).buf == old(self).buf,
            final(self).pos == pos,
    {
        self.pos = pos;
        Ok(())
    }

    /// Read the byte under the cursor and advance past it.
    pub fn read(&mut self) -> (r: DnsResult<u8>)
        requires
            old(self).wf(),
        ensures
            final(self).wf(),
            final(self).buf == old(self).buf,
            r is Ok <==> old(self).pos < CAPACITY,
            match r {
                Ok(v) => v == old(self).buf@[old(self).pos as int] && final(self).pos == old(
                    self,
                ).pos + 1,
                Err(e) => e == DnsError::EndOfBuffer && final(self).pos == old(self).pos,
            },
    {
        if self.pos >= CAPACITY {
            return Err(DnsError::EndOfBuffer);
        }
        let res = self.buf[self.pos];
        self.pos = self.pos + 1;
        Ok(res)
    }

    /// Read the byte at `pos` without moving the cursor.
    pub fn get(&self, pos: usize) -> (r: DnsResult<u8>)
        requires
            self.wf(),
        ensures
            r is Ok <==> pos < CAPACITY,
            match r {
                Ok(v) => v == self.buf@[pos as int],
                Err(e) => e == DnsError::EndOfBuffer,
            },
    {
        if pos >= CAPACITY {
            return Err(DnsError::EndOfBuffer);
        }
        Ok(self.buf[pos])
    }

    /// A read-only view of `len` bytes starting at `start`.
    pub fn get_range(&self, start: usize, len: usize) -> (r: DnsResult<&[u8]>)
        requires
            self.wf(),
        ensures
            r is Ok <==> start + len <= CAPACITY,
            match r {
                Ok(s) => s@ == self.buf@.subrange(start as int, start + len),
                Err(e) => e == DnsError::EndOfBuffer,
            },
    {
        if start > CAPACITY || len > CAPACITY - start {
            return Err(DnsError::EndOfBuffer);
        }
        Ok(&self.buf.as_slice()[start..start + len])
    }

    /// Overwrite the byte at `pos` without moving the cursor.
    pub fn set(&mut self, pos: usize, val: u8) -> (r: DnsResult)
        requires
            old(self).wf(),
        ensures
            final(self).wf(),
            final(self).pos == old(self).pos,
            r is Ok <==> pos < CAPACITY,
            match r {
                Ok(()) => final(self).buf@ == old(self).buf@.update(pos as int, val),
                Err(e) => e == DnsError::EndOfBuffer && final(self).buf == old(self).buf,
            },
    {
        if pos >= CAPACITY {
            return Err(DnsError::EndOfBuffer);
        }
        self.buf[pos] = val;
        Ok(())
    }

    /// Backpatch two big-endian bytes at an already-written offset
    /// without moving the cursor.
    pub fn set_u16(&mut self, pos: usize, val: u16) -> (r: DnsResult)
        requires
            old(self).wf(),
        ensures
            final(self).wf(),
            final(self).pos == old(self).pos,
            r is Ok <==> pos + 2 <= CAPACITY,
            match r {
                Ok(()) => final(self).buf@ == spliced(old(self).buf@, pos as int, u16_bytes(val)),
                Err(e) => e == DnsError::EndOfBuffer && final(self).buf == old(self).buf,
            },
    {
        if pos > CAPACITY || 2 > CAPACITY - pos {
            return Err(DnsError::EndOfBuffer);
        }
        self.buf[pos] = (val / 256) as u8;
        self.buf[pos + 1] = (val % 256) as u8;
        proof {
            assert(self.buf@ =~= spliced(old(self).buf@, pos as int, u16_bytes(val)));
        }
        Ok(())
    }

    /// Read two bytes big-endian.
    pub fn read_u16(&mut self) -> (r: DnsResult<u16>)
        requires
            old(self).wf(),
        ensures
            final(self).wf(),
            final(self).buf == old(self).buf,
            r is Ok <==> old(self).pos + 2 <= CAPACITY,
            match r {
                Ok(v) => v == word16(old(self).buf@, old(self).pos as int) && final(self).pos
                    == old(self).pos + 2,
                Err(e) => e == DnsError::EndOfBuffer && final(self).pos == old(self).pos,
            },
    {
        if self.pos > CAPACITY || 2 > CAPACITY - self.pos {
            return Err(DnsError::EndOfBuffer);
        }
        let hi = self.buf[self.pos];
        let lo = self.buf[self.pos + 1];
        self.pos = self.pos + 2;
        Ok((hi as u16) * 256 + (lo as u16))
    }

    /// Read four bytes big-endian.
    pub fn read_u32(&mut self) -> (r: DnsResult<u32>)
        requires
            old(self).wf(),
        ensures
            final(self).wf(),
            final(self).buf == old(self).buf,
            r is Ok <==> old(self).pos + 4 <= CAPACITY,
            match r {
                Ok(v) => v == word32(old(self).buf@, old(self).pos as int) && final(self).pos
                    == old(self).pos + 4,
                Err(e) => e == DnsError::EndOfBuffer && final(self).pos == old(self).pos,
            },
    {
        if self.pos > CAPACITY || 4 > CAPACITY - self.pos {
            return Err(DnsError::EndOfBuffer);
        }
        let b0 = self.buf[self.pos];
        let b1 = self.buf[self.pos + 1];
        let b2 = self.buf[self.pos + 2];
        let b3 = self.buf[self.pos + 3];
        self.pos = self.pos + 4;
        Ok((b0 as u32) * 0x1000000 + (b1 as u32) * 0x10000 + (b2 as u32) * 256 + (b3 as u32))
    }

    /// Write one byte at the cursor and advance past it.
    pub fn write(&mut self, val: u8) -> (r: DnsResult)
        requires
            old(self).wf(),
        ensures
            final(self).wf(),
            r is Ok <==> old(self).pos < CAPACITY,
            match r {
                Ok(()) => final(self).buf@ == spliced(
                    old(self).buf@,
                    old(self).pos as int,
                    seq![val],
                ) && final(self).pos == old(self).pos + 1,
                Err(e) => e == DnsError::EndOfBuffer && *final(self) == *old(self),
            },
    {
        if self.pos >= CAPACITY {
            return Err(DnsError::EndOfBuffer);
        }
        self.buf[self.pos] = val;
        self.pos = self.pos + 1;
        proof {
            assert(self.buf@ =~= spliced(old(self).buf@, old(self).pos as int, seq![val]));
        }
        Ok(())
    }

    pub fn write_u8(&mut self, val: u8) -> (r: DnsResult)
        requires
            old(self).wf(),
        ensures
            final(self).wf(),
            r is Ok <==> old(self).pos < CAPACITY,
            match r {
                Ok(()) => final(self).buf@ == spliced(
                    old(self).buf@,
                    old(self).pos as int,
                    seq![val],
                ) && final(self).pos == old(self).pos + 1,
                Err(e) => e == DnsError::EndOfBuffer && *final(self) == *old(self),
            },
    {
        self.write(val)
    }

    /// Write two bytes big-endian at the cursor.
    pub fn write_u16(&mut self, val: u16) -> (r: DnsResult)
        requires
            old(self).wf(),
        ensures
            final(self).wf(),
            r is Ok <==> old(self).pos + 2 <= CAPACITY,
            match r {
                Ok(()) => final(self).buf@ == spliced(
                    old(self).buf@,
                    old(self).pos as int,
                    u16_bytes(val),
                ) && final(self).pos == old(self).pos + 2,
                Err(e) => e == DnsError::EndOfBuffer && *final(self) == *old(self),
            },
    {
        if self.pos > CAPACITY || 2 > CAPACITY - self.pos {
            return Err(DnsError::EndOfBuffer);
        }
        let ghost b0 = self.buf@;
        let ghost p0 = self.pos as int;
        let r1 = self.write((val / 256) as u8);
        assert(r1 is Ok);
        let r2 = self.write((val % 256) as u8);
        assert(r2 is Ok);
        proof {
            lemma_spliced_spliced(b0, p0, seq![(val / 256) as u8], seq![(val % 256) as u8]);
            assert(seq![(val / 256) as u8] + seq![(val % 256) as u8] =~= u16_bytes(val));
        }
        Ok(())
    }

    /// Write four bytes big-endian at the cursor.
    #[verifier::rlimit(50)]
    pub fn write_u32(&mut self, val: u32) -> (r: DnsResult)
        requires
            old(self).wf(),
        ensures
            final(self).wf(),
            r is Ok <==> old(self).pos + 4 <= CAPACITY,
            match r {
                Ok(()) => final(self).buf@ == spliced(
                    old(self).buf@,
                    old(self).pos as int,
                    u32_bytes(val),
                ) && final(self).pos == old(self).pos + 4,
                Err(e) => e == DnsError::EndOfBuffer && *final(self) == *old(self),
            },
    {
        if self.pos > CAPACITY || 4 > CAPACITY - self.pos {
            return Err(DnsError::EndOfBuffer);
        }
        let ghost b0 = self.buf@;
        let ghost p0 = self.pos as int;
        let hi = self.write_u16((val / 0x10000) as u16);
        assert(hi is Ok);
        let lo = self.write_u16((val % 0x10000) as u16);
        assert(lo is Ok);
        proof {
            lemma_spliced_spliced(
                b0,
                p0,
                u16_bytes((val / 0x10000) as u16),
                u16_bytes((val % 0x10000) as u16),
            );
            assert(u16_bytes((val / 0x10000) as u16) + u16_bytes((val % 0x10000) as u16)
                =~= u32_bytes(val));
        }
        Ok(())
    }

    /// Read a domain name at the cursor, following compression
    /// pointers, and append its lower-cased dotted form to `out`.
    ///
    /// If no pointer was followed the cursor ends just past the
    /// terminating zero octet; otherwise it ends just past the first
    /// two-byte pointer.
    #[verifier::loop_isolation(false)]
    pub fn read_qname(&mut self, out: &mut Vec<u8>) -> (r: DnsResult)
        requires
            old(self).wf(),
        ensures
            final(self).wf(),
            final(self).buf@ == old(self).buf@,
            r is Ok <==> parse_name_at(old(self).buf@, old(self).pos as int, 0) is Done,
            parse_name_at(old(self).buf@, old(self).pos as int, 0) matches NameRead::Done {
                name,
                end,
            } ==> final(out)@ == old(out)@ + name && final(self).pos == end,
            r matches Err(e) ==> {
                &&& (parse_name_at(old(self).buf@, old(self).pos as int, 0) is TooManyJumps ==> e
                    == DnsError::TooManyJumps)
                &&& (parse_name_at(old(self).buf@, old(self).pos as int, 0) is OutOfBounds ==> e
                    == DnsError::EndOfBuffer)
                &&& old(out)@.is_prefix_of(final(out)@)
            },
    {
        let ghost buf0 = self.buf@;
        let ghost pos0 = self.pos as int;
        let ghost out0 = out@;
        let mut pos: usize = self.pos;
        let mut jumped: bool = false;
        let mut jumps: usize = 0;
        let mut any: bool = false;
        let ghost mut acc: Seq<u8> = Seq::empty();
        loop
            invariant
                self.wf(),
                self.buf@ == buf0,
                0 <= jumps <= MAX_JUMPS,
                out@ == out0 + acc,
                any <==> acc.len() > 0,
                !jumped ==> self.pos as int == pos0,
                parse_name_at(buf0, pos as int, jumps as int) matches NameRead::Done {
                    name,
                    end,
                } ==> parse_name_at(buf0, pos0, 0) == (NameRead::Done {
                    name: join_name(acc, name),
                    end: if jumped {
                        self.pos as int
                    } else {
                        end
                    },
                }),
                parse_name_at(buf0, pos as int, jumps as int) is TooManyJumps ==> parse_name_at(
                    buf0,
                    pos0,
                    0,
                ) is TooManyJumps,
                parse_name_at(buf0, pos as int, jumps as int) is OutOfBounds ==> parse_name_at(
                    buf0,
                    pos0,
                    0,
                ) is OutOfBounds,
            decreases
                    MAX_JUMPS as int - jumps,
                    if pos <= 16384 {
                        16384 - pos as int
                    } else {
                        0int
                    },
        {
            let ghost p = pos as int;
            let ghost j = jumps as int;
            let len = match self.get(pos) {
                Ok(l) => l,
                Err(e) => {
                    return Err(e);
                },
            };
            if len >= 192 {
                if jumps >= MAX_JUMPS {
                    return Err(DnsError::TooManyJumps);
                }
                if !jumped {
                    let _ = self.seek(pos + 2);
                }
                let b2 = match self.get(pos + 1) {
                    Ok(b) => b,
                    Err(e) => {
                        return Err(e);
                    },
                };
                pos = ((len - 192) as usize) * 256 + (b2 as usize);
                jumped = true;
                jumps = jumps + 1;
            } else {
                pos = pos + 1;
                if len == 0 {
                    break;
                }
                if any {
                    out.push(46);
                }
                let range = match self.get_range(pos, len as usize) {
                    Ok(s) => s,
                    Err(e) => {
                        return Err(e);
                    },
                };
                let ghost lbl = lower_bytes(buf0.subrange(p + 1, p + 1 + len));
                let ghost mid = out@;
                let mut k: usize = 0;
                while k < len as usize
                    invariant
                        0 <= k <= len,
                        range@ == buf0.subrange(p + 1, p + 1 + len),
                        out@ == mid + lbl.take(k as int),
                    decreases len as int - k,
                {
                    let b = range[k];
                    let lb = if 65 <= b && b <= 90 {
                        b + 32
                    } else {
                        b
                    };
                    out.push(lb);
                    proof {
                        assert(out@ =~= mid + lbl.take(k + 1));
                    }
                    k = k + 1;
                }
                any = true;
                pos = pos + len as usize;
                proof {
                    assert(lbl.take(len as int) =~= lbl);
                    let acc_prev = acc;
                    acc = join_name(acc_prev, lbl);
                    assert(out@ =~= out0 + acc);
                    // The name parsed at `p` is this label joined onto
                    // whatever is parsed after it.
                    match parse_name_at(buf0, pos as int, jumps as int) {
                        NameRead::Done { name, end: _ } => {
                            lemma_join_name_assoc(acc_prev, lbl, name);
                        },
                        _ => {},
                    }
                }
            }
        }
        // Terminator reached: the name ends here.
        if !jumped {
            let _ = self.seek(pos);
        }
        proof {
            assert(out@ =~= out0 + join_name(acc, Seq::empty()));
        }
        Ok(())
    }

    /// Write a dotted name at the cursor as length-prefixed labels with
    /// a terminating zero octet. Compression is not produced.
    #[verifier::rlimit(60)]
    #[verifier::loop_isolation(false)]
    pub fn write_qname(&mut self, qname: &Vec<u8>) -> (r: DnsResult)
        requires
            old(self).wf(),
        ensures
            final(self).wf(),
            final(self).pos >= old(self).pos,
            r is Ok <==> (labels_fit(qname@) && old(self).pos + encode_name(qname@).len()
                <= CAPACITY),
            r matches Ok(()) ==> final(self).buf@ == spliced(
                old(self).buf@,
                old(self).pos as int,
                encode_name(qname@),
            ) && final(self).pos == old(self).pos + encode_name(qname@).len(),
            r matches Err(e) ==> {
                &&& (e == DnsError::LabelTooLong || e == DnsError::EndOfBuffer)
                &&& (e == DnsError::LabelTooLong ==> !labels_fit(qname@))
                &&& (e == DnsError::EndOfBuffer ==> old(self).pos + encode_name(qname@).len()
                    > CAPACITY)
            },
    {
        let ghost n = qname@;
        let ghost buf0 = self.buf@;
        let ghost pos0 = self.pos as int;
        if self.pos > CAPACITY {
            proof {
                lemma_encode_labels_terminated(labels_of(n));
            }
            return Err(DnsError::EndOfBuffer);
        }
        let mut start: usize = 0;
        let ghost mut labels_done: Seq<Seq<u8>> = Seq::empty();
        let ghost mut written: Seq<u8> = Seq::empty();
        proof {
            assert(n.skip(0) =~= n);
            assert(labels_done + labels_of(n.skip(0)) =~= labels_of(n));
            assert(spliced(buf0, pos0, written) =~= buf0);
        }
        loop
            invariant
                self.wf(),
                qname@ == n,
                0 <= start <= n.len(),
                labels_of(n) == labels_done + labels_of(n.skip(start as int)),
                forall|i: int|
                    0 <= i < labels_done.len() ==> (#[trigger] labels_done[i]).len() <= 63,
                written == encode_labels_partial(labels_done),
                self.buf@ == spliced(buf0, pos0, written),
                self.pos as int == pos0 + written.len(),
                pos0 + written.len() <= CAPACITY,
            decreases n.len() - start,
        {
            let ghost s = n.skip(start as int);
            // Find the end of the current label.
            let mut end: usize = start;
            while end < qname.len() && qname[end] != 46
                invariant
                    start <= end <= n.len(),
                    qname@ == n,
                    forall|k: int| start <= k < end ==> n[k] != 46,
                decreases n.len() - end,
            {
                end = end + 1;
            }
            proof {
                assert forall|k: int| 0 <= k < end - start implies s[k] != 46 by {
                    assert(n[start + k] != 46);
                }
                lemma_first_dot_from_scan(s, end - start);
            }
            let len = end - start;
            let ghost lbl = n.subrange(start as int, end as int);
            proof {
                assert(s.take(end - start) =~= lbl);
                if (end as int) < n.len() {
                    assert(labels_of(s) == seq![lbl] + labels_of(s.skip(end - start + 1)));
                    assert(s.skip(end - start + 1) =~= n.skip(end + 1));
                } else {
                    assert(labels_of(s) == seq![s]);
                    assert(s =~= lbl);
                }
            }
            if len > 63 {
                proof {
                    let i = labels_done.len() as int;
                    assert(labels_of(n)[i] == lbl);
                    assert(!labels_fit(n));
                }
                return Err(DnsError::LabelTooLong);
            }
            let ghost labels_rest = if (end as int) < n.len() {
                labels_of(n.skip(end as int + 1))
            } else {
                Seq::<Seq<u8>>::empty()
            };
            proof {
                if (end as int) < n.len() {
                    assert(labels_of(s) == seq![lbl] + labels_rest);
                } else {
                    assert(seq![s] =~= seq![lbl] + labels_rest);
                }
            }
            // Write the length octet and the label bytes.
            let ghost written_before = written;
            match self.write(len as u8) {
                Ok(()) => {},
                Err(_) => {
                    proof {
                        lemma_encode_labels_append(labels_done, labels_of(s));
                        lemma_encode_labels_terminated(labels_of(s));
                    }
                    return Err(DnsError::EndOfBuffer);
                },
            }
            proof {
                lemma_spliced_spliced(buf0, pos0, written, seq![len as u8]);
                written = written + seq![len as u8];
            }
            let mut k: usize = start;
            while k < end
                invariant
                    self.wf(),
                    start <= k <= end,
                    end <= n.len(),
                    qname@ == n,
                    len == end - start,
                    written == written_before + seq![len as u8] + n.subrange(
                        start as int,
                        k as int,
                    ),
                    self.buf@ == spliced(buf0, pos0, written),
                    self.pos as int == pos0 + written.len(),
                    pos0 + written.len() <= CAPACITY,
                decreases end - k,
            {
                match self.write(qname[k]) {
                    Ok(()) => {},
                    Err(_) => {
                        proof {
                            lemma_encode_labels_append(labels_done, labels_of(s));
                            assert((seq![lbl] + labels_rest).drop_first() =~= labels_rest);
                            assert(encode_labels(labels_of(s)) == seq![lbl.len() as u8] + lbl
                                + encode_labels(labels_rest));
                            lemma_encode_labels_terminated(labels_rest);
                        }
                        return Err(DnsError::EndOfBuffer);
                    },
                }
                proof {
                    lemma_spliced_spliced(buf0, pos0, written, seq![n[k as int]]);
                    written = written + seq![n[k as int]];
                    assert(written_before + seq![len as u8] + n.subrange(start as int, k + 1)
                        =~= (written_before + seq![len as u8] + n.subrange(
                        start as int,
                        k as int,
                    )) + seq![n[k as int]]);
                }
                k = k + 1;
            }
            proof {
                lemma_encode_labels_partial_append(labels_done, seq![lbl]);
                assert(seq![lbl].drop_first() =~= Seq::<Seq<u8>>::empty());
                assert(encode_labels_partial(Seq::<Seq<u8>>::empty()) == Seq::<u8>::empty());
                assert(encode_labels_partial(seq![lbl]) =~= seq![(lbl.len() as u8)] + lbl);
                assert(n.subrange(start as int, end as int) =~= lbl);
                labels_done = labels_done + seq![lbl];
                assert(written =~= encode_labels_partial(labels_done));
                if (end as int) < n.len() {
                    assert(labels_done + labels_of(n.skip(end + 1)) =~= labels_of(n));
                }
            }
            if end == qname.len() {
                // Last label written: terminate the name.
                match self.write(0) {
                    Ok(()) => {},
                    Err(_) => {
                        proof {
                            assert(labels_done == labels_of(n));
                            lemma_encode_labels_terminated(labels_done);
                        }
                        return Err(DnsError::EndOfBuffer);
                    },
                }
                proof {
                    lemma_spliced_spliced(buf0, pos0, written, seq![0u8]);
                    assert(labels_done == labels_of(n));
                    lemma_encode_labels_terminated(labels_done);
                    assert(written + seq![0u8] == encode_name(n));
                }
                return Ok(());
            }
            start = end + 1;
        }
    }
}

} // verus!

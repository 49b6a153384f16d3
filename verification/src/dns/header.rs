//! The 12-byte DNS message header.

use vstd::prelude::*;
use crate::dns::errors::DnsError;
use crate::dns::name::CAPACITY;
use crate::dns::packet_buf::{
    lemma_spliced_spliced, spliced, u16_bytes, word16, BytePacketBuffer, DnsResult,
};
use crate::dns::result_code::ResultCode;

verus! {

/// Transaction id, the flags the resolver models, the result code, and
/// the four section counts.
///
/// Opcode, AA, TC and Z are neither modeled nor preserved: they are
/// read as part of the flag bytes, ignored, and written as zero. The
/// counts are derived values: encoding a packet recomputes them from
/// the section lengths just before the header is written.
#[derive(Copy, Clone, Debug, PartialEq, Eq, Structural)]
pub struct DnsHeader {
    pub id: u16,
    pub recursion_desired: bool,
    pub recursion_available: bool,
    pub response: bool,
    pub rescode: ResultCode,
    pub questions: u16,
    pub answers: u16,
    pub authoritative_entries: u16,
    pub resource_entries: u16,
}

/// First flag byte: QR in the high bit, RD in the low bit.
pub open spec fn flags_byte_1(h: DnsHeader) -> u8 {
    ((if h.response {
        128int
    } else {
        0int
    }) + (if h.recursion_desired {
        1int
    } else {
        0int
    })) as u8
}

/// Second flag byte: RA in the high bit, the result code in the low
/// four bits.
pub open spec fn flags_byte_2(h: DnsHeader) -> u8 {
    ((if h.recursion_available {
        128int
    } else {
        0int
    }) + h.rescode.spec_to_num()) as u8
}

/// The twelve bytes a header encodes to.
pub open spec fn header_bytes(h: DnsHeader) -> Seq<u8> {
    u16_bytes(h.id) + seq![flags_byte_1(h), flags_byte_2(h)] + u16_bytes(h.questions)
        + u16_bytes(h.answers) + u16_bytes(h.authoritative_entries) + u16_bytes(
        h.resource_entries,
    )
}

/// The header decoded from twelve bytes at `pos`, or `None` if they do
/// not fit the buffer.
pub open spec fn parse_header(buf: Seq<u8>, pos: int) -> Option<(DnsHeader, int)> {
    if 0 <= pos && pos + 12 <= buf.len() {
        Some(
            (
                DnsHeader {
                    id: word16(buf, pos),
                    recursion_desired: buf[pos + 2] % 2 == 1,
                    recursion_available: buf[pos + 3] / 128 == 1,
                    response: buf[pos + 2] / 128 == 1,
                    rescode: ResultCode::spec_from_num((buf[pos + 3] % 16) as u8),
                    questions: word16(buf, pos + 4),
                    answers: word16(buf, pos + 6),
                    authoritative_entries: word16(buf, pos + 8),
                    resource_entries: word16(buf, pos + 10),
                },
                pos + 12,
            ),
        )
    } else {
        None
    }
}

/// The header every fresh packet starts from: id zero, no flags,
/// `NOERROR`, all counts zero.
pub open spec fn empty_header() -> DnsHeader {
    DnsHeader {
        id: 0u16,
        recursion_desired: false,
        recursion_available: false,
        response: false,
        rescode: ResultCode::NOERROR,
        questions: 0u16,
        answers: 0u16,
        authoritative_entries: 0u16,
        resource_entries: 0u16,
    }
}

impl DnsHeader {
    /// A fresh header: id zero, no flags, `NOERROR`, all counts zero.
    pub fn new() -> (r: DnsHeader)
        ensures
            r == empty_header(),
    {
        DnsHeader {
            id: 0,
            recursion_desired: false,
            recursion_available: false,
            response: false,
            rescode: ResultCode::NOERROR,
            questions: 0,
            answers: 0,
            authoritative_entries: 0,
            resource_entries: 0,
        }
    }

    /// Decode the header at the cursor into `self`.
    pub fn read(&mut self, buf: &mut BytePacketBuffer) -> (r: DnsResult)
        requires
            old(buf).wf(),
        ensures
            final(buf).wf(),
            final(buf).buf@ == old(buf).buf@,
            r is Ok <==> parse_header(old(buf).buf@, old(buf).pos as int) is Some,
            match r {
                Ok(()) => parse_header(old(buf).buf@, old(buf).pos as int) == Some(
                    (*final(self), final(buf).pos as int),
                ),
                Err(e) => e == DnsError::EndOfBuffer,
            },
    {
        self.id = buf.read_u16()?;

        let b1 = buf.read()?;
        let b2 = buf.read()?;
        self.recursion_desired = b1 % 2 == 1;
        self.response = b1 / 128 == 1;
        self.recursion_available = b2 / 128 == 1;
        self.rescode = ResultCode::from_num(b2 % 16);

        self.questions = buf.read_u16()?;
        self.answers = buf.read_u16()?;
        self.authoritative_entries = buf.read_u16()?;
        self.resource_entries = buf.read_u16()?;

        proof {
            let b = old(buf).buf@;
            let p = old(buf).pos as int;
            assert(word16(b, p + 2) == b[p + 2] * 256 + b[p + 3]);
            assert(b1 == b[p + 2] && b2 == b[p + 3]) by {
                assert(b[p + 2] <= 255 && b[p + 3] <= 255);
            }
        }
        Ok(())
    }

    /// Encode the header at the cursor.
    #[verifier::rlimit(50)]
    pub fn write(&self, buf: &mut BytePacketBuffer) -> (r: DnsResult)
        requires
            old(buf).wf(),
        ensures
            final(buf).wf(),
            r is Ok <==> old(buf).pos + 12 <= CAPACITY,
            match r {
                Ok(()) => final(buf).buf@ == spliced(
                    old(buf).buf@,
                    old(buf).pos as int,
                    header_bytes(*self),
                ) && final(buf).pos == old(buf).pos + 12,
                Err(e) => e == DnsError::EndOfBuffer,
            },
    {
        if buf.pos > CAPACITY || 12 > CAPACITY - buf.pos {
            return Err(DnsError::EndOfBuffer);
        }
        let ghost b0 = buf.buf@;
        let ghost p0 = buf.pos as int;
        let f1: u8 = (if self.response {
            128
        } else {
            0
        }) + (if self.recursion_desired {
            1
        } else {
            0
        });
        let f2: u8 = (if self.recursion_available {
            128
        } else {
            0
        }) + self.rescode.to_num();
        let ghost mut acc: Seq<u8> = u16_bytes(self.id);
        let r1 = buf.write_u16(self.id);
        assert(r1 is Ok);
        let r2 = buf.write(f1);
        assert(r2 is Ok);
        proof {
            lemma_spliced_spliced(b0, p0, acc, seq![f1]);
            acc = acc + seq![f1];
        }
        let r3 = buf.write(f2);
        assert(r3 is Ok);
        proof {
            lemma_spliced_spliced(b0, p0, acc, seq![f2]);
            acc = acc + seq![f2];
        }
        let r4 = buf.write_u16(self.questions);
        assert(r4 is Ok);
        proof {
            lemma_spliced_spliced(b0, p0, acc, u16_bytes(self.questions));
            acc = acc + u16_bytes(self.questions);
        }
        let r5 = buf.write_u16(self.answers);
        assert(r5 is Ok);
        proof {
            lemma_spliced_spliced(b0, p0, acc, u16_bytes(self.answers));
            acc = acc + u16_bytes(self.answers);
        }
        let r6 = buf.write_u16(self.authoritative_entries);
        assert(r6 is Ok);
        proof {
            lemma_spliced_spliced(b0, p0, acc, u16_bytes(self.authoritative_entries));
            acc = acc + u16_bytes(self.authoritative_entries);
        }
        let r7 = buf.write_u16(self.resource_entries);
        assert(r7 is Ok);
        proof {
            lemma_spliced_spliced(b0, p0, acc, u16_bytes(self.resource_entries));
            acc = acc + u16_bytes(self.resource_entries);
            assert(acc =~= header_bytes(*self));
        }
        Ok(())
    }
}

/// Encoding a header and decoding the bytes gives the header back.
pub proof fn lemma_header_round_trip(buf: Seq<u8>, p: int, h: DnsHeader)
    requires
        0 <= p,
        p + 12 <= buf.len(),
        buf.subrange(p, p + 12) == header_bytes(h),
    ensures
        parse_header(buf, p) == Some((h, p + 12)),
{
    let hb = header_bytes(h);
    assert forall|k: int| 0 <= k < 12 implies buf[p + k] == hb[k] by {
        assert(buf.subrange(p, p + 12)[k] == buf[p + k]);
    }
    assert(hb[0] == h.id / 256 && hb[1] == h.id % 256);
    assert(hb[2] == flags_byte_1(h) && hb[3] == flags_byte_2(h));
    assert(hb[4] == h.questions / 256 && hb[5] == h.questions % 256);
    assert(hb[6] == h.answers / 256 && hb[7] == h.answers % 256);
    assert(hb[8] == h.authoritative_entries / 256 && hb[9] == h.authoritative_entries % 256);
    assert(hb[10] == h.resource_entries / 256 && hb[11] == h.resource_entries % 256);
    let g = parse_header(buf, p).unwrap().0;
    assert(g.id == h.id);
    assert(g.response == h.response && g.recursion_desired == h.recursion_desired);
    assert(g.recursion_available == h.recursion_available);
    assert((flags_byte_2(h) % 16) as u8 == h.rescode.spec_to_num());
    h.rescode.lemma_num_round_trip();
    assert(g.questions == h.questions && g.answers == h.answers);
    assert(g.authoritative_entries == h.authoritative_entries);
    assert(g.resource_entries == h.resource_entries);
}

} // verus!

//! The question section entry: a name and a query type.

use vstd::prelude::*;
use crate::dns::errors::DnsError;
use crate::dns::name::{encode_name, labels_fit, parse_name_at, NameRead, CAPACITY};
use crate::dns::packet_buf::{
    lemma_spliced_spliced, spliced, u16_bytes, word16, BytePacketBuffer, DnsResult,
};
use crate::dns::query_type::QueryType;

verus! {

/// One entry of the question section. The class field is not stored:
/// it is read and discarded, and always written as 1 (IN).
#[derive(Clone, Debug)]
pub struct DnsQuestion {
    pub name: Vec<u8>,
    pub qtype: QueryType,
}

/// Mathematical view of a question: the name as a byte sequence.
pub struct QuestionV {
    pub name: Seq<u8>,
    pub qtype: QueryType,
}

impl View for DnsQuestion {
    type V = QuestionV;

    open spec fn view(&self) -> QuestionV {
        QuestionV { name: self.name@, qtype: self.qtype }
    }
}

/// The bytes a question encodes to: name, type, class 1.
pub open spec fn question_bytes(q: QuestionV) -> Seq<u8> {
    encode_name(q.name) + u16_bytes(q.qtype.spec_to_num()) + u16_bytes(1)
}

/// The question decoded at `pos`, with the position after it, or
/// `None` where the buffer is exhausted or a pointer chain is too
/// long.
pub open spec fn parse_question(buf: Seq<u8>, pos: int) -> Option<(QuestionV, int)> {
    match parse_name_at(buf, pos, 0) {
        NameRead::Done { name, end } => if end + 4 <= buf.len() {
            Some(
                (
                    QuestionV { name, qtype: QueryType::spec_from_num(word16(buf, end)) },
                    end + 4,
                ),
            )
        } else {
            None
        },
        _ => None,
    }
}

impl DnsQuestion {
    pub fn new(name: Vec<u8>, qtype: QueryType) -> (r: DnsQuestion)
        ensures
            r@.name == name@,
            r@.qtype == qtype,
    {
        DnsQuestion { name, qtype }
    }

    /// Decode the question at the cursor into `self`, replacing it.
    pub fn read(&mut self, buf: &mut BytePacketBuffer) -> (r: DnsResult)
        requires
            old(buf).wf(),
        ensures
            final(buf).wf(),
            final(buf).buf@ == old(buf).buf@,
            r is Ok <==> parse_question(old(buf).buf@, old(buf).pos as int) is Some,
            r matches Ok(()) ==> parse_question(old(buf).buf@, old(buf).pos as int) == Some(
                (final(self)@, final(buf).pos as int),
            ),
            r matches Err(e) ==> (e == DnsError::EndOfBuffer || e == DnsError::TooManyJumps)
                && *final(self) == *old(self),
    {
        let mut nm: Vec<u8> = Vec::new();
        buf.read_qname(&mut nm)?;
        let qt = buf.read_u16()?;
        let _class = buf.read_u16()?;
        self.name = nm;
        self.qtype = QueryType::from_num(qt);
        Ok(())
    }

    /// Encode the question at the cursor.
    pub fn write(&self, buf: &mut BytePacketBuffer) -> (r: DnsResult)
        requires
            old(buf).wf(),
        ensures
            final(buf).wf(),
            r is Ok <==> (labels_fit(self@.name) && old(buf).pos + question_bytes(self@).len()
                <= CAPACITY),
            r matches Ok(()) ==> final(buf).buf@ == spliced(
                old(buf).buf@,
                old(buf).pos as int,
                question_bytes(self@),
            ) && final(buf).pos == old(buf).pos + question_bytes(self@).len(),
            r matches Err(e) ==> {
                &&& (e == DnsError::LabelTooLong || e == DnsError::EndOfBuffer)
                &&& (e == DnsError::LabelTooLong ==> !labels_fit(self@.name))
                &&& (e == DnsError::EndOfBuffer ==> old(buf).pos + question_bytes(self@).len()
                    > CAPACITY)
            },
    {
        let ghost b0 = buf.buf@;
        let ghost p0 = buf.pos as int;
        buf.write_qname(&self.name)?;
        let ghost mut acc: Seq<u8> = encode_name(self.name@);
        match buf.write_u16(self.qtype.to_num()) {
            Ok(()) => {},
            Err(e) => {
                return Err(e);
            },
        }
        proof {
            lemma_spliced_spliced(b0, p0, acc, u16_bytes(self.qtype.spec_to_num()));
            acc = acc + u16_bytes(self.qtype.spec_to_num());
        }
        match buf.write_u16(1) {
            Ok(()) => {},
            Err(e) => {
                return Err(e);
            },
        }
        proof {
            lemma_spliced_spliced(b0, p0, acc, u16_bytes(1));
            acc = acc + u16_bytes(1);
            assert(acc =~= question_bytes(self@));
        }
        Ok(())
    }
}

} // verus!

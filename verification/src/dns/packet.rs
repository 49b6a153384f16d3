//! The aggregate DNS message: header plus four ordered sections.

use vstd::prelude::*;
use crate::dns::errors::DnsError;
use crate::dns::header::{empty_header, header_bytes, parse_header, DnsHeader};
use crate::dns::name::{labels_fit, CAPACITY};
use crate::dns::packet_buf::{
    lemma_spliced_spliced, spliced, BytePacketBuffer, DnsResult,
};
use crate::dns::query_type::QueryType;
use crate::dns::question::{parse_question, question_bytes, DnsQuestion, QuestionV};
use crate::dns::record::{parse_record, record_bytes, record_fits, DnsRecord, RecordV};

verus! {

/// A whole DNS message. The header's counts are derived: encoding
/// recomputes them from the section lengths, so a packet whose
/// sections were changed after decoding still encodes consistently.
#[derive(Clone, Debug)]
pub struct DnsPacket {
    pub header: DnsHeader,
    pub questions: Vec<DnsQuestion>,
    pub answers: Vec<DnsRecord>,
    pub authorities: Vec<DnsRecord>,
    pub resources: Vec<DnsRecord>,
}

/// Mathematical view of a packet.
pub struct PacketV {
    pub header: DnsHeader,
    pub questions: Seq<QuestionV>,
    pub answers: Seq<RecordV>,
    pub authorities: Seq<RecordV>,
    pub resources: Seq<RecordV>,
}

/// Views of a record section.
pub open spec fn recs_view(rs: Seq<DnsRecord>) -> Seq<RecordV> {
    rs.map_values(|r: DnsRecord| r@)
}

/// Views of the question section.
pub open spec fn questions_view(qs: Seq<DnsQuestion>) -> Seq<QuestionV> {
    qs.map_values(|q: DnsQuestion| q@)
}

impl View for DnsPacket {
    type V = PacketV;

    open spec fn view(&self) -> PacketV {
        PacketV {
            header: self.header,
            questions: questions_view(self.questions@),
            answers: recs_view(self.answers@),
            authorities: recs_view(self.authorities@),
            resources: recs_view(self.resources@),
        }
    }
}

/// `n` questions decoded in sequence from `pos`.
pub open spec fn parse_questions(buf: Seq<u8>, pos: int, n: nat) -> Option<(Seq<QuestionV>, int)>
    decreases n,
{
    if n == 0 {
        Some((seq![], pos))
    } else {
        match parse_question(buf, pos) {
            Some((q, p2)) => match parse_questions(buf, p2, (n - 1) as nat) {
                Some((qs, p3)) => Some((seq![q] + qs, p3)),
                None => None,
            },
            None => None,
        }
    }
}

/// `n` records decoded in sequence from `pos`.
pub open spec fn parse_records(buf: Seq<u8>, pos: int, n: nat) -> Option<(Seq<RecordV>, int)>
    decreases n,
{
    if n == 0 {
        Some((seq![], pos))
    } else {
        match parse_record(buf, pos) {
            Some((r, p2)) => match parse_records(buf, p2, (n - 1) as nat) {
                Some((rs, p3)) => Some((seq![r] + rs, p3)),
                None => None,
            },
            None => None,
        }
    }
}

/// A whole packet decoded from `pos`: the header, then exactly the
/// number of questions and records its counts declare, in order.
pub open spec fn parse_packet(buf: Seq<u8>, pos: int) -> Option<(PacketV, int)> {
    match parse_header(buf, pos) {
        Some((h, p1)) => match parse_questions(buf, p1, h.questions as nat) {
            Some((qs, p2)) => match parse_records(buf, p2, h.answers as nat) {
                Some((ans, p3)) => match parse_records(buf, p3, h.authoritative_entries as nat) {
                    Some((auth, p4)) => match parse_records(buf, p4, h.resource_entries as nat) {
                        Some((res, p5)) => Some(
                            (
                                PacketV {
                                    header: h,
                                    questions: qs,
                                    answers: ans,
                                    authorities: auth,
                                    resources: res,
                                },
                                p5,
                            ),
                        ),
                        None => None,
                    },
                    None => None,
                },
                None => None,
            },
            None => None,
        },
        None => None,
    }
}

/// The bytes a question section encodes to.
pub open spec fn questions_bytes(qs: Seq<QuestionV>) -> Seq<u8>
    decreases qs.len(),
{
    if qs.len() == 0 {
        seq![]
    } else {
        question_bytes(qs[0]) + questions_bytes(qs.drop_first())
    }
}

/// The bytes a record section encodes to; unknown records contribute
/// nothing.
pub open spec fn records_bytes(rs: Seq<RecordV>) -> Seq<u8>
    decreases rs.len(),
{
    if rs.len() == 0 {
        seq![]
    } else {
        record_bytes(rs[0]) + records_bytes(rs.drop_first())
    }
}

pub proof fn lemma_questions_bytes_append(a: Seq<QuestionV>, b: Seq<QuestionV>)
    ensures
        questions_bytes(a + b) == questions_bytes(a) + questions_bytes(b),
    decreases a.len(),
{
    if a.len() == 0 {
        assert(a + b =~= b);
        assert(questions_bytes(a) + questions_bytes(b) =~= questions_bytes(b));
    } else {
        lemma_questions_bytes_append(a.drop_first(), b);
        assert((a + b).drop_first() =~= a.drop_first() + b);
        assert(question_bytes((a + b)[0]) + (questions_bytes(a.drop_first()) + questions_bytes(b))
            =~= (question_bytes(a[0]) + questions_bytes(a.drop_first())) + questions_bytes(b));
    }
}

pub proof fn lemma_records_bytes_append(a: Seq<RecordV>, b: Seq<RecordV>)
    ensures
        records_bytes(a + b) == records_bytes(a) + records_bytes(b),
    decreases a.len(),
{
    if a.len() == 0 {
        assert(a + b =~= b);
        assert(records_bytes(a) + records_bytes(b) =~= records_bytes(b));
    } else {
        lemma_records_bytes_append(a.drop_first(), b);
        assert((a + b).drop_first() =~= a.drop_first() + b);
        assert(record_bytes((a + b)[0]) + (records_bytes(a.drop_first()) + records_bytes(b))
            =~= (record_bytes(a[0]) + records_bytes(a.drop_first())) + records_bytes(b));
    }
}

/// Every name in the question section can be written.
pub open spec fn questions_fit(qs: Seq<QuestionV>) -> bool {
    forall|i: int| 0 <= i < qs.len() ==> labels_fit((#[trigger] qs[i]).name)
}

/// Every record in the section can be written.
pub open spec fn records_fit(rs: Seq<RecordV>) -> bool {
    forall|i: int| 0 <= i < rs.len() ==> record_fits(#[trigger] rs[i])
}

/// The bytes a packet encodes to: header, then each section in order.
pub open spec fn packet_bytes(p: PacketV) -> Seq<u8> {
    header_bytes(p.header) + questions_bytes(p.questions) + records_bytes(p.answers)
        + records_bytes(p.authorities) + records_bytes(p.resources)
}

/// Every name in the packet can be written.
pub open spec fn packet_fits(p: PacketV) -> bool {
    questions_fit(p.questions) && records_fit(p.answers) && records_fit(p.authorities)
        && records_fit(p.resources)
}

/// The address of the first `A` record in the section, if any.
pub open spec fn spec_first_a(rs: Seq<RecordV>) -> Option<u32>
    decreases rs.len(),
{
    if rs.len() == 0 {
        None
    } else {
        match rs[0] {
            RecordV::A { addr, .. } => Some(addr),
            _ => spec_first_a(rs.drop_first()),
        }
    }
}

/// The (delegated zone, nameserver host) pairs of the `NS` records in
/// the section whose zone is a suffix of `qname`, in order.
pub open spec fn spec_ns_pairs(rs: Seq<RecordV>, qname: Seq<u8>) -> Seq<(Seq<u8>, Seq<u8>)>
    decreases rs.len(),
{
    if rs.len() == 0 {
        seq![]
    } else {
        let rest = spec_ns_pairs(rs.drop_first(), qname);
        match rs[0] {
            RecordV::NS { domain, host, .. } => if domain.is_suffix_of(qname) {
                seq![(domain, host)] + rest
            } else {
                rest
            },
            _ => rest,
        }
    }
}

/// The address of the first `A` record in the section whose owner name
/// equals `host`: the glue record for that nameserver, if present.
pub open spec fn spec_glue_a(rs: Seq<RecordV>, host: Seq<u8>) -> Option<u32>
    decreases rs.len(),
{
    if rs.len() == 0 {
        None
    } else {
        match rs[0] {
            RecordV::A { domain, addr, .. } => if domain == host {
                Some(addr)
            } else {
                spec_glue_a(rs.drop_first(), host)
            },
            _ => spec_glue_a(rs.drop_first(), host),
        }
    }
}

/// The glue address of the first delegation pair whose host has one.
pub open spec fn spec_resolve_ns(
    pairs: Seq<(Seq<u8>, Seq<u8>)>,
    resources: Seq<RecordV>,
) -> Option<u32>
    decreases pairs.len(),
{
    if pairs.len() == 0 {
        None
    } else {
        match spec_glue_a(resources, pairs[0].1) {
            Some(a) => Some(a),
            None => spec_resolve_ns(pairs.drop_first(), resources),
        }
    }
}

/// The host of the first delegation pair that has no glue address.
pub open spec fn spec_unresolved_ns(
    pairs: Seq<(Seq<u8>, Seq<u8>)>,
    resources: Seq<RecordV>,
) -> Option<Seq<u8>>
    decreases pairs.len(),
{
    if pairs.len() == 0 {
        None
    } else if spec_glue_a(resources, pairs[0].1) is None {
        Some(pairs[0].1)
    } else {
        spec_unresolved_ns(pairs.drop_first(), resources)
    }
}

/// Views of a delegation pair list.
pub open spec fn pairs_view(ps: Seq<(Vec<u8>, Vec<u8>)>) -> Seq<(Seq<u8>, Seq<u8>)> {
    ps.map_values(|p: (Vec<u8>, Vec<u8>)| (p.0@, p.1@))
}

/// Byte-wise equality of two byte strings.
fn bytes_eq(a: &Vec<u8>, b: &Vec<u8>) -> (r: bool)
    ensures
        r == (a@ == b@),
{
    if a.len() != b.len() {
        proof {
            assert(a@.len() != b@.len());
        }
        return false;
    }
    let mut i: usize = 0;
    while i < a.len()
        invariant
            0 <= i <= a@.len(),
            a@.len() == b@.len(),
            forall|k: int| 0 <= k < i ==> a@[k] == b@[k],
        decreases a@.len() - i,
    {
        if a[i] != b[i] {
            return false;
        }
        i = i + 1;
    }
    proof {
        assert(a@ =~= b@);
    }
    true
}

/// Whether `b` is a byte-wise suffix of `a`.
fn bytes_ends_with(a: &Vec<u8>, b: &Vec<u8>) -> (r: bool)
    ensures
        r == b@.is_suffix_of(a@),
{
    if b.len() > a.len() {
        return false;
    }
    let off = a.len() - b.len();
    let mut i: usize = 0;
    while i < b.len()
        invariant
            0 <= i <= b@.len(),
            b@.len() <= a@.len(),
            a@.len() <= usize::MAX,
            off + b@.len() == a@.len(),
            forall|k: int| 0 <= k < i ==> a@[off + k] == b@[k],
        decreases b@.len() - i,
    {
        if a[off + i] != b[i] {
            proof {
                assert(a@.skip(off as int)[i as int] != b@[i as int]);
            }
            return false;
        }
        i = i + 1;
    }
    proof {
        assert(a@.skip(off as int) =~= b@);
    }
    true
}

impl DnsPacket {
    /// An empty packet: fresh header, no sections.
    pub fn new() -> (r: DnsPacket)
        ensures
            r.header == empty_header(),
            r@.questions =~= Seq::<QuestionV>::empty(),
            r@.answers =~= Seq::<RecordV>::empty(),
            r@.authorities =~= Seq::<RecordV>::empty(),
            r@.resources =~= Seq::<RecordV>::empty(),
    {
        DnsPacket {
            header: DnsHeader::new(),
            questions: Vec::new(),
            answers: Vec::new(),
            authorities: Vec::new(),
            resources: Vec::new(),
        }
    }

    /// Decode a whole message at the cursor: header, then exactly the
    /// declared number of entries of each section. A short or
    /// malformed buffer fails the whole decode.
    #[verifier::loop_isolation(false)]
    pub fn read(buf: &mut BytePacketBuffer) -> (r: DnsResult<DnsPacket>)
        requires
            old(buf).wf(),
        ensures
            final(buf).wf(),
            final(buf).buf@ == old(buf).buf@,
            r is Ok <==> parse_packet(old(buf).buf@, old(buf).pos as int) is Some,
            r matches Ok(p) ==> parse_packet(old(buf).buf@, old(buf).pos as int) == Some(
                (p@, final(buf).pos as int),
            ),
            r matches Err(e) ==> e == DnsError::EndOfBuffer || e == DnsError::TooManyJumps,
    {
        let ghost buf0 = old(buf).buf@;
        let ghost pos0 = old(buf).pos as int;
        let mut result = DnsPacket::new();
        match result.header.read(buf) {
            Ok(()) => {},
            Err(e) => {
                return Err(e);
            },
        }
        let ghost h = result.header;
        let count_q = result.header.questions;
        proof {
            match parse_questions(buf0, buf.pos as int, count_q as nat) {
                Some((qs, p)) => {
                    assert(result@.questions + qs =~= qs);
                },
                None => {},
            }
        }
        let mut i: u16 = 0;
        while i < count_q
            invariant
                buf.wf(),
                buf.buf@ == buf0,
                0 <= i <= count_q,
                result.header == h,
                result@.questions.len() == i,
                parse_questions(buf0, buf.pos as int, (count_q - i) as nat) matches Some(
                    (qs, p),
                ) ==> parse_questions(
                    buf0,
                    (parse_header(buf0, pos0).unwrap().1),
                    count_q as nat,
                ) == Some((result@.questions + qs, p)),
                parse_questions(buf0, buf.pos as int, (count_q - i) as nat) is None
                    ==> parse_questions(
                    buf0,
                    (parse_header(buf0, pos0).unwrap().1),
                    count_q as nat,
                ) is None,
            decreases count_q - i,
        {
            let mut q = DnsQuestion::new(Vec::new(), QueryType::UNKNOWN(0));
            match q.read(buf) {
                Ok(()) => {},
                Err(e) => {
                    return Err(e);
                },
            }
            let ghost qs_before = result@.questions;
            let ghost qv = q@;
            result.questions.push(q);
            proof {
                assert(result@.questions =~= qs_before + seq![qv]);
                match parse_questions(buf0, buf.pos as int, (count_q - i - 1) as nat) {
                    Some((qs, p)) => {
                        assert((qs_before + seq![qv]) + qs =~= qs_before + (seq![qv] + qs));
                    },
                    None => {},
                }
            }
            i = i + 1;
        }
        proof {
            assert(parse_questions(buf0, buf.pos as int, 0) == Some(
                (Seq::<QuestionV>::empty(), buf.pos as int),
            ));
            assert(result@.questions + Seq::<QuestionV>::empty() =~= result@.questions);
        }
        let r1 = Self::read_records(buf, result.header.answers, Ghost(buf0));
        let mut answers = match r1 {
            Ok(v) => v,
            Err(e) => {
                return Err(e);
            },
        };
        let r2 = Self::read_records(buf, result.header.authoritative_entries, Ghost(buf0));
        let mut authorities = match r2 {
            Ok(v) => v,
            Err(e) => {
                return Err(e);
            },
        };
        let r3 = Self::read_records(buf, result.header.resource_entries, Ghost(buf0));
        let mut resources = match r3 {
            Ok(v) => v,
            Err(e) => {
                return Err(e);
            },
        };
        result.answers = answers;
        result.authorities = authorities;
        result.resources = resources;
        Ok(result)
    }

    /// Decode `count` records in sequence at the cursor.
    #[verifier::loop_isolation(false)]
    fn read_records(buf: &mut BytePacketBuffer, count: u16, Ghost(buf0): Ghost<Seq<u8>>) -> (r:
        DnsResult<Vec<DnsRecord>>)
        requires
            old(buf).wf(),
            old(buf).buf@ == buf0,
        ensures
            final(buf).wf(),
            final(buf).buf@ == buf0,
            r is Ok <==> parse_records(buf0, old(buf).pos as int, count as nat) is Some,
            r matches Ok(v) ==> parse_records(buf0, old(buf).pos as int, count as nat) == Some(
                (recs_view(v@), final(buf).pos as int),
            ),
            r matches Err(e) ==> e == DnsError::EndOfBuffer || e == DnsError::TooManyJumps,
    {
        let ghost pos0 = old(buf).pos as int;
        let mut out: Vec<DnsRecord> = Vec::new();
        proof {
            assert(recs_view(out@) =~= Seq::<RecordV>::empty());
            match parse_records(buf0, pos0, count as nat) {
                Some((rs, p)) => {
                    assert(recs_view(out@) + rs =~= rs);
                },
                None => {},
            }
        }
        let mut i: u16 = 0;
        while i < count
            invariant
                buf.wf(),
                buf.buf@ == buf0,
                0 <= i <= count,
                recs_view(out@).len() == i,
                parse_records(buf0, buf.pos as int, (count - i) as nat) matches Some((rs, p))
                    ==> parse_records(buf0, pos0, count as nat) == Some(
                    (recs_view(out@) + rs, p),
                ),
                parse_records(buf0, buf.pos as int, (count - i) as nat) is None ==> parse_records(
                    buf0,
                    pos0,
                    count as nat,
                ) is None,
            decreases count - i,
        {
            let rec = match DnsRecord::read(buf) {
                Ok(rec) => rec,
                Err(e) => {
                    return Err(e);
                },
            };
            let ghost before = recs_view(out@);
            let ghost rv = rec@;
            out.push(rec);
            proof {
                assert(recs_view(out@) =~= before + seq![rv]);
                match parse_records(buf0, buf.pos as int, (count - i - 1) as nat) {
                    Some((rs, p)) => {
                        assert((before + seq![rv]) + rs =~= before + (seq![rv] + rs));
                    },
                    None => {},
                }
            }
            i = i + 1;
        }
        proof {
            assert(parse_records(buf0, buf.pos as int, 0) == Some(
                (Seq::<RecordV>::empty(), buf.pos as int),
            ));
            assert(recs_view(out@) + Seq::<RecordV>::empty() =~= recs_view(out@));
        }
        Ok(out)
    }

    /// Encode the whole message at the cursor: the section counts are
    /// recomputed from the actual section lengths, then the header and
    /// each section are written in order.
    #[verifier::rlimit(100)]
    pub fn write(&mut self, buf: &mut BytePacketBuffer) -> (r: DnsResult)
        requires
            old(buf).wf(),
            old(self).questions@.len() <= 0xFFFF,
            old(self).answers@.len() <= 0xFFFF,
            old(self).authorities@.len() <= 0xFFFF,
            old(self).resources@.len() <= 0xFFFF,
        ensures
            final(buf).wf(),
            final(self).questions == old(self).questions,
            final(self).answers == old(self).answers,
            final(self).authorities == old(self).authorities,
            final(self).resources == old(self).resources,
            final(self).header == (DnsHeader {
                questions: old(self).questions@.len() as u16,
                answers: old(self).answers@.len() as u16,
                authoritative_entries: old(self).authorities@.len() as u16,
                resource_entries: old(self).resources@.len() as u16,
                ..old(self).header
            }),
            r is Ok <==> (packet_fits(final(self)@) && old(buf).pos + packet_bytes(
                final(self)@,
            ).len() <= CAPACITY),
            r matches Ok(()) ==> final(buf).buf@ == spliced(
                old(buf).buf@,
                old(buf).pos as int,
                packet_bytes(final(self)@),
            ) && final(buf).pos == old(buf).pos + packet_bytes(final(self)@).len(),
            r matches Err(e) ==> {
                &&& (e == DnsError::LabelTooLong || e == DnsError::EndOfBuffer)
                &&& (e == DnsError::LabelTooLong ==> !packet_fits(final(self)@))
                &&& (e == DnsError::EndOfBuffer ==> old(buf).pos + packet_bytes(
                    final(self)@,
                ).len() > CAPACITY)
            },
    {
        self.header.questions = self.questions.len() as u16;
        self.header.answers = self.answers.len() as u16;
        self.header.authoritative_entries = self.authorities.len() as u16;
        self.header.resource_entries = self.resources.len() as u16;

        let ghost b0 = buf.buf@;
        let ghost p0 = buf.pos as int;
        let ghost pv = self@;
        let ghost total = packet_bytes(pv);
        proof {
            assert(total.len() >= 12 + questions_bytes(pv.questions).len() + records_bytes(
                pv.answers,
            ).len() + records_bytes(pv.authorities).len() + records_bytes(pv.resources).len());
        }
        match self.header.write(buf) {
            Ok(()) => {},
            Err(e) => {
                return Err(e);
            },
        }
        let ghost mut acc: Seq<u8> = header_bytes(self.header);
        match Self::write_questions(buf, &self.questions) {
            Ok(()) => {
                proof {
                    lemma_spliced_spliced(b0, p0, acc, questions_bytes(pv.questions));
                    acc = acc + questions_bytes(pv.questions);
                }
            },
            Err(e) => {
                return Err(e);
            },
        }
        match Self::write_records(buf, &self.answers) {
            Ok(()) => {
                proof {
                    lemma_spliced_spliced(b0, p0, acc, records_bytes(pv.answers));
                    acc = acc + records_bytes(pv.answers);
                }
            },
            Err(e) => {
                return Err(e);
            },
        }
        match Self::write_records(buf, &self.authorities) {
            Ok(()) => {
                proof {
                    lemma_spliced_spliced(b0, p0, acc, records_bytes(pv.authorities));
                    acc = acc + records_bytes(pv.authorities);
                }
            },
            Err(e) => {
                return Err(e);
            },
        }
        match Self::write_records(buf, &self.resources) {
            Ok(()) => {
                proof {
                    lemma_spliced_spliced(b0, p0, acc, records_bytes(pv.resources));
                    acc = acc + records_bytes(pv.resources);
                    assert(acc =~= total);
                }
            },
            Err(e) => {
                return Err(e);
            },
        }
        Ok(())
    }

    /// Encode each question in order at the cursor.
    #[verifier::loop_isolation(false)]
    fn write_questions(buf: &mut BytePacketBuffer, qs: &Vec<DnsQuestion>) -> (r: DnsResult)
        requires
            old(buf).wf(),
        ensures
            final(buf).wf(),
            r is Ok <==> (questions_fit(questions_view(qs@)) && old(buf).pos + questions_bytes(
                questions_view(qs@),
            ).len() <= CAPACITY),
            r matches Ok(()) ==> final(buf).buf@ == spliced(
                old(buf).buf@,
                old(buf).pos as int,
                questions_bytes(questions_view(qs@)),
            ) && final(buf).pos == old(buf).pos + questions_bytes(questions_view(qs@)).len(),
            r matches Err(e) ==> {
                &&& (e == DnsError::LabelTooLong || e == DnsError::EndOfBuffer)
                &&& (e == DnsError::LabelTooLong ==> !questions_fit(questions_view(qs@)))
                &&& (e == DnsError::EndOfBuffer ==> old(buf).pos + questions_bytes(
                    questions_view(qs@),
                ).len() > CAPACITY)
            },
    {
        let ghost vs = questions_view(qs@);
        let ghost b0 = buf.buf@;
        let ghost p0 = buf.pos as int;
        if buf.pos > CAPACITY {
            return Err(DnsError::EndOfBuffer);
        }
        proof {
            assert(vs.take(0) =~= Seq::<QuestionV>::empty());
            assert(questions_bytes(Seq::<QuestionV>::empty()) == Seq::<u8>::empty());
            assert(spliced(b0, p0, questions_bytes(vs.take(0))) =~= b0);
        }
        let mut i: usize = 0;
        while i < qs.len()
            invariant
                buf.wf(),
                0 <= i <= qs.len(),
                buf.buf@ == spliced(b0, p0, questions_bytes(vs.take(i as int))),
                buf.pos as int == p0 + questions_bytes(vs.take(i as int)).len(),
                p0 + questions_bytes(vs.take(i as int)).len() <= CAPACITY,
                questions_fit(vs.take(i as int)),
            decreases qs.len() - i,
        {
            let ghost pre = vs.take(i as int);
            proof {
                // The whole section's bytes split around entry `i`.
                assert(vs =~= (pre + seq![vs[i as int]]) + vs.skip(i + 1));
                lemma_questions_bytes_append(pre + seq![vs[i as int]], vs.skip(i + 1));
                lemma_questions_bytes_append(pre, seq![vs[i as int]]);
                assert(seq![vs[i as int]].drop_first() =~= Seq::<QuestionV>::empty());
                assert(questions_bytes(seq![vs[i as int]]) =~= question_bytes(vs[i as int]));
            }
            let q = &qs[i];
            match q.write(buf) {
                Ok(()) => {
                    proof {
                        lemma_spliced_spliced(b0, p0, questions_bytes(pre), question_bytes(
                            vs[i as int],
                        ));
                        assert(vs.take(i + 1) =~= pre + seq![vs[i as int]]);
                    }
                },
                Err(e) => {
                    proof {
                        if e == DnsError::LabelTooLong {
                            assert(!labels_fit(vs[i as int].name));
                        }
                    }
                    return Err(e);
                },
            }
            i = i + 1;
        }
        proof {
            assert(vs.take(qs@.len() as int) =~= vs);
        }
        Ok(())
    }

    /// Encode each record in order at the cursor; unknown records are
    /// skipped.
    #[verifier::loop_isolation(false)]
    fn write_records(buf: &mut BytePacketBuffer, rs: &Vec<DnsRecord>) -> (r: DnsResult)
        requires
            old(buf).wf(),
        ensures
            final(buf).wf(),
            r is Ok <==> (records_fit(recs_view(rs@)) && old(buf).pos + records_bytes(
                recs_view(rs@),
            ).len() <= CAPACITY),
            r matches Ok(()) ==> final(buf).buf@ == spliced(
                old(buf).buf@,
                old(buf).pos as int,
                records_bytes(recs_view(rs@)),
            ) && final(buf).pos == old(buf).pos + records_bytes(recs_view(rs@)).len(),
            r matches Err(e) ==> {
                &&& (e == DnsError::LabelTooLong || e == DnsError::EndOfBuffer)
                &&& (e == DnsError::LabelTooLong ==> !records_fit(recs_view(rs@)))
                &&& (e == DnsError::EndOfBuffer ==> old(buf).pos + records_bytes(
                    recs_view(rs@),
                ).len() > CAPACITY)
            },
    {
        let ghost vs = recs_view(rs@);
        let ghost b0 = buf.buf@;
        let ghost p0 = buf.pos as int;
        if buf.pos > CAPACITY {
            return Err(DnsError::EndOfBuffer);
        }
        proof {
            assert(vs.take(0) =~= Seq::<RecordV>::empty());
            assert(records_bytes(Seq::<RecordV>::empty()) == Seq::<u8>::empty());
            assert(spliced(b0, p0, records_bytes(vs.take(0))) =~= b0);
        }
        let mut i: usize = 0;
        while i < rs.len()
            invariant
                buf.wf(),
                0 <= i <= rs.len(),
                buf.buf@ == spliced(b0, p0, records_bytes(vs.take(i as int))),
                buf.pos as int == p0 + records_bytes(vs.take(i as int)).len(),
                p0 + records_bytes(vs.take(i as int)).len() <= CAPACITY,
                records_fit(vs.take(i as int)),
            decreases rs.len() - i,
        {
            let ghost pre = vs.take(i as int);
            proof {
                assert(vs =~= (pre + seq![vs[i as int]]) + vs.skip(i + 1));
                lemma_records_bytes_append(pre + seq![vs[i as int]], vs.skip(i + 1));
                lemma_records_bytes_append(pre, seq![vs[i as int]]);
                assert(seq![vs[i as int]].drop_first() =~= Seq::<RecordV>::empty());
                assert(records_bytes(seq![vs[i as int]]) =~= record_bytes(vs[i as int]));
            }
            let rec = &rs[i];
            match rec.write(buf) {
                Ok(_) => {
                    proof {
                        if rec@ matches RecordV::UNKNOWN { .. } {
                            assert(record_bytes(vs[i as int]) =~= Seq::<u8>::empty());
                            assert(records_bytes(pre) + record_bytes(vs[i as int])
                                =~= records_bytes(pre));
                        } else {
                            lemma_spliced_spliced(b0, p0, records_bytes(pre), record_bytes(
                                vs[i as int],
                            ));
                        }
                        assert(vs.take(i + 1) =~= pre + seq![vs[i as int]]);
                    }
                },
                Err(e) => {
                    proof {
                        if e == DnsError::LabelTooLong {
                            assert(!record_fits(vs[i as int]));
                        }
                    }
                    return Err(e);
                },
            }
            i = i + 1;
        }
        proof {
            assert(vs.take(rs@.len() as int) =~= vs);
        }
        Ok(())
    }

    /// The first `A` record's address in the answer section, if any.
    pub fn get_random_a(&self) -> (r: Option<u32>)
        ensures
            r == spec_first_a(self@.answers),
    {
        let ghost vs = recs_view(self.answers@);
        proof {
            assert(vs.skip(0) =~= vs);
        }
        let mut i: usize = 0;
        while i < self.answers.len()
            invariant
                0 <= i <= self.answers@.len(),
                vs == recs_view(self.answers@),
                spec_first_a(vs) == spec_first_a(vs.skip(i as int)),
            decreases self.answers@.len() - i,
        {
            proof {
                assert(vs.skip(i as int)[0] == vs[i as int]);
                assert(vs.skip(i as int).drop_first() =~= vs.skip(i + 1));
            }
            match &self.answers[i] {
                DnsRecord::A { addr, .. } => {
                    return Some(*addr);
                },
                _ => {},
            }
            i = i + 1;
        }
        proof {
            assert(vs.skip(self.answers@.len() as int) =~= Seq::<RecordV>::empty());
        }
        None
    }

    /// The delegation pairs for `qname`: each `NS` record in the
    /// authority section whose zone is a suffix of `qname`, as a
    /// (zone, nameserver host) pair, in order.
    pub fn get_ns(&self, qname: &Vec<u8>) -> (r: Vec<(Vec<u8>, Vec<u8>)>)
        ensures
            pairs_view(r@) == spec_ns_pairs(self@.authorities, qname@),
    {
        let ghost vs = recs_view(self.authorities@);
        let mut out: Vec<(Vec<u8>, Vec<u8>)> = Vec::new();
        proof {
            assert(vs.skip(0) =~= vs);
            assert(pairs_view(out@) =~= Seq::<(Seq<u8>, Seq<u8>)>::empty());
            assert(Seq::<(Seq<u8>, Seq<u8>)>::empty() + spec_ns_pairs(vs, qname@) =~= spec_ns_pairs(
                vs,
                qname@,
            ));
        }
        let mut i: usize = 0;
        while i < self.authorities.len()
            invariant
                0 <= i <= self.authorities@.len(),
                vs == recs_view(self.authorities@),
                spec_ns_pairs(vs, qname@) == pairs_view(out@) + spec_ns_pairs(
                    vs.skip(i as int),
                    qname@,
                ),
            decreases self.authorities@.len() - i,
        {
            proof {
                assert(vs.skip(i as int)[0] == vs[i as int]);
                assert(vs.skip(i as int).drop_first() =~= vs.skip(i + 1));
            }
            let ghost before = pairs_view(out@);
            match &self.authorities[i] {
                DnsRecord::NS { domain, host, .. } => {
                    if bytes_ends_with(qname, domain) {
                        let pair = (bytes_clone(domain), bytes_clone(host));
                        let ghost pv = (domain@, host@);
                        out.push(pair);
                        proof {
                            assert(pairs_view(out@) =~= before + seq![pv]);
                            assert((before + seq![pv]) + spec_ns_pairs(vs.skip(i + 1), qname@)
                                =~= before + (seq![pv] + spec_ns_pairs(vs.skip(i + 1), qname@)));
                        }
                    }
                },
                _ => {},
            }
            i = i + 1;
        }
        proof {
            assert(vs.skip(self.authorities@.len() as int) =~= Seq::<RecordV>::empty());
            assert(pairs_view(out@) + Seq::<(Seq<u8>, Seq<u8>)>::empty() =~= pairs_view(out@));
        }
        out
    }

    /// The glue address of the first delegation pair for `qname` whose
    /// nameserver host has an `A` record in the additional section.
    pub fn get_resolve_ns(&self, qname: &Vec<u8>) -> (r: Option<u32>)
        ensures
            r == spec_resolve_ns(
                spec_ns_pairs(self@.authorities, qname@),
                self@.resources,
            ),
    {
        let pairs = self.get_ns(qname);
        let ghost pv = pairs_view(pairs@);
        proof {
            assert(pv.skip(0) =~= pv);
        }
        let mut i: usize = 0;
        while i < pairs.len()
            invariant
                0 <= i <= pairs@.len(),
                pv == pairs_view(pairs@),
                pv == spec_ns_pairs(self@.authorities, qname@),
                spec_resolve_ns(pv, self@.resources) == spec_resolve_ns(
                    pv.skip(i as int),
                    self@.resources,
                ),
            decreases pairs@.len() - i,
        {
            proof {
                assert(pv.skip(i as int)[0] == pv[i as int]);
                assert(pv.skip(i as int).drop_first() =~= pv.skip(i + 1));
            }
            match Self::glue_a(&self.resources, &pairs[i].1) {
                Some(addr) => {
                    return Some(addr);
                },
                None => {},
            }
            i = i + 1;
        }
        proof {
            assert(pv.skip(pairs@.len() as int) =~= Seq::<(Seq<u8>, Seq<u8>)>::empty());
        }
        None
    }

    /// The first delegation pair for `qname` whose nameserver host has
    /// no glue address: its host must itself be resolved.
    pub fn get_unresolved_ns(&self, qname: &Vec<u8>) -> (r: Option<Vec<u8>>)
        ensures
            match r {
                Some(h) => spec_unresolved_ns(
                    spec_ns_pairs(self@.authorities, qname@),
                    self@.resources,
                ) == Some(h@),
                None => spec_unresolved_ns(
                    spec_ns_pairs(self@.authorities, qname@),
                    self@.resources,
                ) is None,
            },
    {
        let pairs = self.get_ns(qname);
        let ghost pv = pairs_view(pairs@);
        proof {
            assert(pv.skip(0) =~= pv);
        }
        let mut i: usize = 0;
        while i < pairs.len()
            invariant
                0 <= i <= pairs@.len(),
                pv == pairs_view(pairs@),
                pv == spec_ns_pairs(self@.authorities, qname@),
                spec_unresolved_ns(pv, self@.resources) == spec_unresolved_ns(
                    pv.skip(i as int),
                    self@.resources,
                ),
            decreases pairs@.len() - i,
        {
            proof {
                assert(pv.skip(i as int)[0] == pv[i as int]);
                assert(pv.skip(i as int).drop_first() =~= pv.skip(i + 1));
            }
            match Self::glue_a(&self.resources, &pairs[i].1) {
                Some(_) => {},
                None => {
                    return Some(bytes_clone(&pairs[i].1));
                },
            }
            i = i + 1;
        }
        proof {
            assert(pv.skip(pairs@.len() as int) =~= Seq::<(Seq<u8>, Seq<u8>)>::empty());
        }
        None
    }

    /// The address of the first `A` record in `resources` whose owner
    /// name equals `host`.
    fn glue_a(resources: &Vec<DnsRecord>, host: &Vec<u8>) -> (r: Option<u32>)
        ensures
            r == spec_glue_a(recs_view(resources@), host@),
    {
        let ghost vs = recs_view(resources@);
        proof {
            assert(vs.skip(0) =~= vs);
        }
        let mut i: usize = 0;
        while i < resources.len()
            invariant
                0 <= i <= resources@.len(),
                vs == recs_view(resources@),
                spec_glue_a(vs, host@) == spec_glue_a(vs.skip(i as int), host@),
            decreases resources@.len() - i,
        {
            proof {
                assert(vs.skip(i as int)[0] == vs[i as int]);
                assert(vs.skip(i as int).drop_first() =~= vs.skip(i + 1));
            }
            match &resources[i] {
                DnsRecord::A { domain, addr, .. } => {
                    if bytes_eq(domain, host) {
                        return Some(*addr);
                    }
                },
                _ => {},
            }
            i = i + 1;
        }
        proof {
            assert(vs.skip(resources@.len() as int) =~= Seq::<RecordV>::empty());
        }
        None
    }
}

/// A fresh copy of a byte string.
fn bytes_clone(v: &Vec<u8>) -> (r: Vec<u8>)
    ensures
        r@ == v@,
{
    let mut out: Vec<u8> = Vec::new();
    let mut i: usize = 0;
    while i < v.len()
        invariant
            0 <= i <= v@.len(),
            out@ == v@.take(i as int),
        decreases v@.len() - i,
    {
        out.push(v[i]);
        proof {
            assert(out@ =~= v@.take(i + 1));
        }
        i = i + 1;
    }
    proof {
        assert(v@.take(v@.len() as int) =~= v@);
    }
    out
}

} // verus!

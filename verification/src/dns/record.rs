//! Resource records: a tagged union keyed by record type.

use vstd::prelude::*;
use crate::dns::errors::DnsError;
use crate::dns::name::{
    encode_name, labels_fit, labels_of, lemma_encode_labels_terminated, parse_name_at, NameRead,
    CAPACITY,
};
use crate::dns::packet_buf::{
    lemma_spliced_patch, lemma_spliced_spliced, spliced, u128_bytes, u16_bytes, u32_bytes,
    word128, word16, word32, BytePacketBuffer, DnsResult,
};
use crate::dns::query_type::QueryType;

verus! {

/// One resource record. Addresses are held as their big-endian wire
/// values; names as ASCII byte strings. A record of a type the codec
/// does not interpret keeps only its envelope: the payload bytes are
/// skipped on decode and the record is skipped silently on encode.
#[derive(Clone, Debug)]
pub enum DnsRecord {
    UNKNOWN { domain: Vec<u8>, qtype: u16, data_len: u16, ttl: u32 },
    A { domain: Vec<u8>, addr: u32, ttl: u32 },
    NS { domain: Vec<u8>, host: Vec<u8>, ttl: u32 },
    CNAME { domain: Vec<u8>, host: Vec<u8>, ttl: u32 },
    MX { domain: Vec<u8>, priority: u16, host: Vec<u8>, ttl: u32 },
    AAA { domain: Vec<u8>, addr: u128, ttl: u32 },
}

/// Mathematical view of a record, with names as byte sequences.
pub enum RecordV {
    UNKNOWN { domain: Seq<u8>, qtype: u16, data_len: u16, ttl: u32 },
    A { domain: Seq<u8>, addr: u32, ttl: u32 },
    NS { domain: Seq<u8>, host: Seq<u8>, ttl: u32 },
    CNAME { domain: Seq<u8>, host: Seq<u8>, ttl: u32 },
    MX { domain: Seq<u8>, priority: u16, host: Seq<u8>, ttl: u32 },
    AAA { domain: Seq<u8>, addr: u128, ttl: u32 },
}

impl View for DnsRecord {
    type V = RecordV;

    open spec fn view(&self) -> RecordV {
        match self {
            DnsRecord::UNKNOWN { domain, qtype, data_len, ttl } => RecordV::UNKNOWN {
                domain: domain@,
                qtype: *qtype,
                data_len: *data_len,
                ttl: *ttl,
            },
            DnsRecord::A { domain, addr, ttl } => RecordV::A {
                domain: domain@,
                addr: *addr,
                ttl: *ttl,
            },
            DnsRecord::NS { domain, host, ttl } => RecordV::NS {
                domain: domain@,
                host: host@,
                ttl: *ttl,
            },
            DnsRecord::CNAME { domain, host, ttl } => RecordV::CNAME {
                domain: domain@,
                host: host@,
                ttl: *ttl,
            },
            DnsRecord::MX { domain, priority, host, ttl } => RecordV::MX {
                domain: domain@,
                priority: *priority,
                host: host@,
                ttl: *ttl,
            },
            DnsRecord::AAA { domain, addr, ttl } => RecordV::AAA {
                domain: domain@,
                addr: *addr,
                ttl: *ttl,
            },
        }
    }
}

/// The record decoded at `pos`, with the position after it: the name,
/// the type, a discarded class, the time to live, the payload length,
/// then the type-specific payload.
pub open spec fn parse_record(buf: Seq<u8>, pos: int) -> Option<(RecordV, int)> {
    match parse_name_at(buf, pos, 0) {
        NameRead::Done { name: domain, end } => if end + 10 <= buf.len() {
            let qt = word16(buf, end);
            let ttl = word32(buf, end + 4);
            let data_len = word16(buf, end + 8);
            let p = end + 10;
            match QueryType::spec_from_num(qt) {
                QueryType::A => if p + 4 <= buf.len() {
                    Some((RecordV::A { domain, addr: word32(buf, p), ttl }, p + 4))
                } else {
                    None
                },
                QueryType::AAA => if p + 16 <= buf.len() {
                    Some((RecordV::AAA { domain, addr: word128(buf, p), ttl }, p + 16))
                } else {
                    None
                },
                QueryType::NS => match parse_name_at(buf, p, 0) {
                    NameRead::Done { name: host, end: e2 } => Some(
                        (RecordV::NS { domain, host, ttl }, e2),
                    ),
                    _ => None,
                },
                QueryType::CNAME => match parse_name_at(buf, p, 0) {
                    NameRead::Done { name: host, end: e2 } => Some(
                        (RecordV::CNAME { domain, host, ttl }, e2),
                    ),
                    _ => None,
                },
                QueryType::MX => if p + 2 <= buf.len() {
                    match parse_name_at(buf, p + 2, 0) {
                        NameRead::Done { name: host, end: e2 } => Some(
                            (
                                RecordV::MX { domain, priority: word16(buf, p), host, ttl },
                                e2,
                            ),
                        ),
                        _ => None,
                    }
                } else {
                    None
                },
                QueryType::UNKNOWN(x) => Some(
                    (RecordV::UNKNOWN { domain, qtype: x, data_len, ttl }, p + data_len),
                ),
            }
        } else {
            None
        },
        _ => None,
    }
}

/// Every name the encoder would write fits in 63-byte labels. An
/// unknown record writes nothing, so it always fits.
pub open spec fn record_fits(v: RecordV) -> bool {
    match v {
        RecordV::UNKNOWN { .. } => true,
        RecordV::A { domain, .. } => labels_fit(domain),
        RecordV::NS { domain, host, .. } => labels_fit(domain) && labels_fit(host),
        RecordV::CNAME { domain, host, .. } => labels_fit(domain) && labels_fit(host),
        RecordV::MX { domain, host, .. } => labels_fit(domain) && labels_fit(host),
        RecordV::AAA { domain, .. } => labels_fit(domain),
    }
}

/// The bytes a record encodes to. The payload length of a name-valued
/// record is the encoded host name's length, backpatched after the
/// host is written; an unknown record encodes to nothing.
pub open spec fn record_bytes(v: RecordV) -> Seq<u8> {
    match v {
        RecordV::UNKNOWN { .. } => seq![],
        RecordV::A { domain, addr, ttl } => encode_name(domain) + u16_bytes(1) + u16_bytes(1)
            + u32_bytes(ttl) + u16_bytes(4) + u32_bytes(addr),
        RecordV::NS { domain, host, ttl } => encode_name(domain) + u16_bytes(2) + u16_bytes(1)
            + u32_bytes(ttl) + u16_bytes(encode_name(host).len() as u16) + encode_name(host),
        RecordV::CNAME { domain, host, ttl } => encode_name(domain) + u16_bytes(5) + u16_bytes(1)
            + u32_bytes(ttl) + u16_bytes(encode_name(host).len() as u16) + encode_name(host),
        RecordV::MX { domain, priority, host, ttl } => encode_name(domain) + u16_bytes(15)
            + u16_bytes(1) + u32_bytes(ttl) + u16_bytes((2 + encode_name(host).len()) as u16)
            + u16_bytes(priority) + encode_name(host),
        RecordV::AAA { domain, addr, ttl } => encode_name(domain) + u16_bytes(28) + u16_bytes(1)
            + u32_bytes(ttl) + u16_bytes(16) + u128_bytes(addr),
    }
}

impl DnsRecord {
    /// Decode one record at the cursor.
    pub fn read(buf: &mut BytePacketBuffer) -> (r: DnsResult<DnsRecord>)
        requires
            old(buf).wf(),
        ensures
            final(buf).wf(),
            final(buf).buf@ == old(buf).buf@,
            r is Ok <==> parse_record(old(buf).buf@, old(buf).pos as int) is Some,
            r matches Ok(rec) ==> parse_record(old(buf).buf@, old(buf).pos as int) == Some(
                (rec@, final(buf).pos as int),
            ),
            r matches Err(e) ==> e == DnsError::EndOfBuffer || e == DnsError::TooManyJumps,
    {
        let mut domain: Vec<u8> = Vec::new();
        buf.read_qname(&mut domain)?;
        let qtype_num = buf.read_u16()?;
        let qtype = QueryType::from_num(qtype_num);
        let _class = buf.read_u16()?;
        let ttl = buf.read_u32()?;
        let data_len = buf.read_u16()?;

        match qtype {
            QueryType::A => {
                let addr = buf.read_u32()?;
                Ok(DnsRecord::A { domain, addr, ttl })
            },
            QueryType::AAA => {
                let w0 = buf.read_u32()?;
                let w1 = buf.read_u32()?;
                let w2 = buf.read_u32()?;
                let w3 = buf.read_u32()?;
                let addr = (w0 as u128) * 0x1000000000000000000000000 + (w1 as u128)
                    * 0x10000000000000000 + (w2 as u128) * 0x100000000 + (w3 as u128);
                Ok(DnsRecord::AAA { domain, addr, ttl })
            },
            QueryType::NS => {
                let mut host: Vec<u8> = Vec::new();
                buf.read_qname(&mut host)?;
                Ok(DnsRecord::NS { domain, host, ttl })
            },
            QueryType::CNAME => {
                let mut host: Vec<u8> = Vec::new();
                buf.read_qname(&mut host)?;
                Ok(DnsRecord::CNAME { domain, host, ttl })
            },
            QueryType::MX => {
                let priority = buf.read_u16()?;
                let mut host: Vec<u8> = Vec::new();
                buf.read_qname(&mut host)?;
                Ok(DnsRecord::MX { domain, priority, host, ttl })
            },
            QueryType::UNKNOWN(x) => {
                let skip = data_len as usize;
                let _ = buf.step(skip);
                Ok(DnsRecord::UNKNOWN { domain, qtype: x, data_len, ttl })
            },
        }
    }

    /// Encode this record at the cursor and return how many bytes it
    /// took. An unknown record is skipped silently: zero bytes, no
    /// error.
    #[verifier::rlimit(100)]
    pub fn write(&self, buf: &mut BytePacketBuffer) -> (r: DnsResult<usize>)
        requires
            old(buf).wf(),
        ensures
            final(buf).wf(),
            r is Ok <==> (self@ matches RecordV::UNKNOWN { .. } || (record_fits(self@) && old(
                buf,
            ).pos + record_bytes(self@).len() <= CAPACITY)),
            self@ matches RecordV::UNKNOWN { .. } ==> (r matches Ok(n) && n == 0) && *final(buf)
                == *old(buf),
            r matches Ok(n) ==> (self@ matches RecordV::UNKNOWN { .. } || {
                &&& final(buf).buf@ == spliced(
                    old(buf).buf@,
                    old(buf).pos as int,
                    record_bytes(self@),
                )
                &&& final(buf).pos == old(buf).pos + record_bytes(self@).len()
                &&& n == record_bytes(self@).len()
            }),
            r matches Err(e) ==> {
                &&& (e == DnsError::LabelTooLong || e == DnsError::EndOfBuffer)
                &&& (e == DnsError::LabelTooLong ==> !record_fits(self@))
                &&& (e == DnsError::EndOfBuffer ==> old(buf).pos + record_bytes(self@).len()
                    > CAPACITY)
            },
    {
        match self {
            DnsRecord::UNKNOWN { .. } => {
                // Deliberately skipped: unsupported types are dropped on
                // re-encode rather than failing the whole message.
                Ok(0)
            },
            DnsRecord::A { domain, addr, ttl } => {
                let n = Self::write_a(buf, domain, *addr, *ttl);
                proof {
                    assert(record_bytes(self@) =~= a_record_bytes(domain@, *addr, *ttl));
                }
                n
            },
            DnsRecord::AAA { domain, addr, ttl } => {
                let n = Self::write_aaaa(buf, domain, *addr, *ttl);
                proof {
                    assert(record_bytes(self@) =~= aaaa_record_bytes(domain@, *addr, *ttl));
                }
                n
            },
            DnsRecord::NS { domain, host, ttl } => {
                let n = Self::write_name_record(buf, domain, host, 2, None, *ttl);
                proof {
                    assert(record_bytes(self@) =~= name_record_bytes(
                        domain@,
                        host@,
                        2,
                        None,
                        *ttl,
                    ));
                }
                n
            },
            DnsRecord::CNAME { domain, host, ttl } => {
                let n = Self::write_name_record(buf, domain, host, 5, None, *ttl);
                proof {
                    assert(record_bytes(self@) =~= name_record_bytes(
                        domain@,
                        host@,
                        5,
                        None,
                        *ttl,
                    ));
                }
                n
            },
            DnsRecord::MX { domain, priority, host, ttl } => {
                let n = Self::write_name_record(buf, domain, host, 15, Some(*priority), *ttl);
                proof {
                    assert(record_bytes(self@) =~= name_record_bytes(
                        domain@,
                        host@,
                        15,
                        Some(*priority),
                        *ttl,
                    ));
                }
                n
            },
        }
    }

    /// Encode an address record with a fixed-length payload.
    #[verifier::rlimit(100)]
    fn write_a(buf: &mut BytePacketBuffer, domain: &Vec<u8>, addr: u32, ttl: u32) -> (r: DnsResult<
        usize,
    >)
        requires
            old(buf).wf(),
        ensures
            final(buf).wf(),
            r is Ok <==> (labels_fit(domain@) && old(buf).pos + a_record_bytes(
                domain@,
                addr,
                ttl,
            ).len() <= CAPACITY),
            r matches Ok(n) ==> final(buf).buf@ == spliced(
                old(buf).buf@,
                old(buf).pos as int,
                a_record_bytes(domain@, addr, ttl),
            ) && final(buf).pos == old(buf).pos + a_record_bytes(domain@, addr, ttl).len() && n
                == a_record_bytes(domain@, addr, ttl).len(),
            r matches Err(e) ==> {
                &&& (e == DnsError::LabelTooLong || e == DnsError::EndOfBuffer)
                &&& (e == DnsError::LabelTooLong ==> !labels_fit(domain@))
                &&& (e == DnsError::EndOfBuffer ==> old(buf).pos + a_record_bytes(
                    domain@,
                    addr,
                    ttl,
                ).len() > CAPACITY)
            },
    {
        let ghost b0 = buf.buf@;
        let ghost p0 = buf.pos as int;
        let start_pos = buf.pos();
        proof {
            a_shape(domain@, addr, ttl);
        }
            buf.write_qname(domain)?;
            let ghost mut acc: Seq<u8> = encode_name(domain@);
            match buf.write_u16(1) {
                Ok(()) => {
                    proof {
                    lemma_spliced_spliced(b0, p0, acc, u16_bytes(1));
                    acc = acc + u16_bytes(1);
                    }
                },
                Err(e) => {
                    return Err(e);
                },
            }
            match buf.write_u16(1) {
                Ok(()) => {
                    proof {
                    lemma_spliced_spliced(b0, p0, acc, u16_bytes(1));
                    acc = acc + u16_bytes(1);
                    }
                },
                Err(e) => {
                    return Err(e);
                },
            }
            match buf.write_u32(ttl) {
                Ok(()) => {
                    proof {
                    lemma_spliced_spliced(b0, p0, acc, u32_bytes(ttl));
                    acc = acc + u32_bytes(ttl);
                    }
                },
                Err(e) => {
                    return Err(e);
                },
            }
            match buf.write_u16(4) {
                Ok(()) => {
                    proof {
                    lemma_spliced_spliced(b0, p0, acc, u16_bytes(4));
                    acc = acc + u16_bytes(4);
                    }
                },
                Err(e) => {
                    return Err(e);
                },
            }
            match buf.write_u32(addr) {
                Ok(()) => {
                    proof {
                    lemma_spliced_spliced(b0, p0, acc, u32_bytes(addr));
                    acc = acc + u32_bytes(addr);
                    }
                },
                Err(e) => {
                    return Err(e);
                },
            }
            proof {
                assert(acc =~= a_record_bytes(domain@, addr, ttl));
            }
            Ok(buf.pos() - start_pos)
    }

    /// Encode a sixteen-byte address record.
    #[verifier::rlimit(100)]
    fn write_aaaa(buf: &mut BytePacketBuffer, domain: &Vec<u8>, addr: u128, ttl: u32) -> (r:
        DnsResult<usize>)
        requires
            old(buf).wf(),
        ensures
            final(buf).wf(),
            r is Ok <==> (labels_fit(domain@) && old(buf).pos + aaaa_record_bytes(
                domain@,
                addr,
                ttl,
            ).len() <= CAPACITY),
            r matches Ok(n) ==> final(buf).buf@ == spliced(
                old(buf).buf@,
                old(buf).pos as int,
                aaaa_record_bytes(domain@, addr, ttl),
            ) && final(buf).pos == old(buf).pos + aaaa_record_bytes(domain@, addr, ttl).len() && n
                == aaaa_record_bytes(domain@, addr, ttl).len(),
            r matches Err(e) ==> {
                &&& (e == DnsError::LabelTooLong || e == DnsError::EndOfBuffer)
                &&& (e == DnsError::LabelTooLong ==> !labels_fit(domain@))
                &&& (e == DnsError::EndOfBuffer ==> old(buf).pos + aaaa_record_bytes(
                    domain@,
                    addr,
                    ttl,
                ).len() > CAPACITY)
            },
    {
        let ghost b0 = buf.buf@;
        let ghost p0 = buf.pos as int;
        let start_pos = buf.pos();
        proof {
            aaaa_shape(domain@, addr, ttl);
        }
        buf.write_qname(domain)?;
        let ghost mut acc: Seq<u8> = encode_name(domain@);
        match buf.write_u16(28) {
            Ok(()) => {
                proof {
                    lemma_spliced_spliced(b0, p0, acc, u16_bytes(28));
                    acc = acc + u16_bytes(28);
                }
            },
            Err(e) => {
                return Err(e);
            },
        }
        match buf.write_u16(1) {
            Ok(()) => {
                proof {
                    lemma_spliced_spliced(b0, p0, acc, u16_bytes(1));
                    acc = acc + u16_bytes(1);
                }
            },
            Err(e) => {
                return Err(e);
            },
        }
        match buf.write_u32(ttl) {
            Ok(()) => {
                proof {
                    lemma_spliced_spliced(b0, p0, acc, u32_bytes(ttl));
                    acc = acc + u32_bytes(ttl);
                }
            },
            Err(e) => {
                return Err(e);
            },
        }
        match buf.write_u16(16) {
            Ok(()) => {
                proof {
                    lemma_spliced_spliced(b0, p0, acc, u16_bytes(16));
                    acc = acc + u16_bytes(16);
                }
            },
            Err(e) => {
                return Err(e);
            },
        }
        let w0: u32 = (addr / 0x1000000000000000000000000) as u32;
        let w1: u32 = ((addr / 0x10000000000000000) % 0x100000000) as u32;
        let w2: u32 = ((addr / 0x100000000) % 0x100000000) as u32;
        let w3: u32 = (addr % 0x100000000) as u32;
        match buf.write_u32(w0) {
            Ok(()) => {
                proof {
                    lemma_spliced_spliced(b0, p0, acc, u32_bytes(w0));
                    acc = acc + u32_bytes(w0);
                }
            },
            Err(e) => {
                return Err(e);
            },
        }
        match buf.write_u32(w1) {
            Ok(()) => {
                proof {
                    lemma_spliced_spliced(b0, p0, acc, u32_bytes(w1));
                    acc = acc + u32_bytes(w1);
                }
            },
            Err(e) => {
                return Err(e);
            },
        }
        match buf.write_u32(w2) {
            Ok(()) => {
                proof {
                    lemma_spliced_spliced(b0, p0, acc, u32_bytes(w2));
                    acc = acc + u32_bytes(w2);
                }
            },
            Err(e) => {
                return Err(e);
            },
        }
        match buf.write_u32(w3) {
            Ok(()) => {
                proof {
                    lemma_spliced_spliced(b0, p0, acc, u32_bytes(w3));
                    acc = acc + u32_bytes(w3);
                }
            },
            Err(e) => {
                return Err(e);
            },
        }
        proof {
            assert(acc =~= aaaa_record_bytes(domain@, addr, ttl));
        }
        Ok(buf.pos() - start_pos)
    }

    /// Encode a record whose payload is a host name, with an optional
    /// leading 16-bit value: a placeholder length is written, the
    /// payload encoded, and the length backpatched.
    #[verifier::rlimit(100)]
    fn write_name_record(
        buf: &mut BytePacketBuffer,
        domain: &Vec<u8>,
        host: &Vec<u8>,
        qtype_num: u16,
        priority: Option<u16>,
        ttl: u32,
    ) -> (r: DnsResult<usize>)
        requires
            old(buf).wf(),
        ensures
            final(buf).wf(),
            r is Ok <==> (labels_fit(domain@) && labels_fit(host@) && old(buf).pos
                + name_record_bytes(domain@, host@, qtype_num, priority, ttl).len() <= CAPACITY),
            r matches Ok(n) ==> final(buf).buf@ == spliced(
                old(buf).buf@,
                old(buf).pos as int,
                name_record_bytes(domain@, host@, qtype_num, priority, ttl),
            ) && final(buf).pos == old(buf).pos + name_record_bytes(
                domain@,
                host@,
                qtype_num,
                priority,
                ttl,
            ).len() && n == name_record_bytes(domain@, host@, qtype_num, priority, ttl).len(),
            r matches Err(e) ==> {
                &&& (e == DnsError::LabelTooLong || e == DnsError::EndOfBuffer)
                &&& (e == DnsError::LabelTooLong ==> !(labels_fit(domain@) && labels_fit(host@)))
                &&& (e == DnsError::EndOfBuffer ==> old(buf).pos + name_record_bytes(
                    domain@,
                    host@,
                    qtype_num,
                    priority,
                    ttl,
                ).len() > CAPACITY)
            },
    {
        let ghost b0 = buf.buf@;
        let ghost p0 = buf.pos as int;
        let ghost total = name_record_bytes(domain@, host@, qtype_num, priority, ttl);
        let start_pos = buf.pos();
        buf.write_qname(domain)?;
        let ghost mut acc: Seq<u8> = encode_name(domain@);
        proof {
            rdata_shape(domain@, host@, qtype_num, priority, ttl);
            lemma_encode_labels_terminated(labels_of(host@));
        }
        match buf.write_u16(qtype_num) {
            Ok(()) => {
                proof {
                lemma_spliced_spliced(b0, p0, acc, u16_bytes(qtype_num));
                acc = acc + u16_bytes(qtype_num);
                }
            },
            Err(e) => {
                return Err(e);
            },
        }
        match buf.write_u16(1) {
            Ok(()) => {
                proof {
                lemma_spliced_spliced(b0, p0, acc, u16_bytes(1));
                acc = acc + u16_bytes(1);
                }
            },
            Err(e) => {
                return Err(e);
            },
        }
        match buf.write_u32(ttl) {
            Ok(()) => {
                proof {
                lemma_spliced_spliced(b0, p0, acc, u32_bytes(ttl));
                acc = acc + u32_bytes(ttl);
                }
            },
            Err(e) => {
                return Err(e);
            },
        }
        // Reserve the payload length; it is known only once the host
        // name is written.
        let len_pos = buf.pos();
        let ghost patch_at = p0 + acc.len();
        match buf.write_u16(0) {
            Ok(()) => {
                proof {
                lemma_spliced_spliced(b0, p0, acc, u16_bytes(0));
                acc = acc + u16_bytes(0);
                }
            },
            Err(e) => {
                return Err(e);
            },
        }
        match priority {
            Some(p) => {
                match buf.write_u16(p) {
                    Ok(()) => {
                        proof {
                        lemma_spliced_spliced(b0, p0, acc, u16_bytes(p));
                        acc = acc + u16_bytes(p);
                        }
                    },
                    Err(e) => {
                        return Err(e);
                    },
                }
            },
            None => {},
        }
        match buf.write_qname(host) {
            Ok(()) => {
                proof {
                lemma_spliced_spliced(b0, p0, acc, encode_name(host@));
                acc = acc + encode_name(host@);
                }
            },
            Err(e) => {
                proof {
                    rdata_shape(domain@, host@, qtype_num, priority, ttl);
                }
                return Err(e);
            },
        }
        // Backpatch the payload length.
        let size = buf.pos() - (len_pos + 2);
        let r = buf.set_u16(len_pos, size as u16);
        assert(r is Ok);
        proof {
            lemma_spliced_patch(b0, p0, acc, patch_at, u16_bytes(size as u16));
            rdata_shape(domain@, host@, qtype_num, priority, ttl);
            assert(acc.take(patch_at - p0) + u16_bytes(size as u16) + acc.skip(
                patch_at - p0 + 2,
            ) =~= total);
        }
        Ok(buf.pos() - start_pos)
    }
}

/// The bytes of an address record.
pub open spec fn a_record_bytes(domain: Seq<u8>, addr: u32, ttl: u32) -> Seq<u8> {
    encode_name(domain) + u16_bytes(1) + u16_bytes(1) + u32_bytes(ttl) + u16_bytes(4) + u32_bytes(
        addr,
    )
}

/// The bytes of a sixteen-byte address record.
pub open spec fn aaaa_record_bytes(domain: Seq<u8>, addr: u128, ttl: u32) -> Seq<u8> {
    encode_name(domain) + u16_bytes(28) + u16_bytes(1) + u32_bytes(ttl) + u16_bytes(16)
        + u128_bytes(addr)
}

/// Unfolds the length accounting of `a_record_bytes`.
proof fn a_shape(domain: Seq<u8>, addr: u32, ttl: u32)
    ensures
        a_record_bytes(domain, addr, ttl).len() == encode_name(domain).len() + 14,
{
}

/// Unfolds the length accounting of `aaaa_record_bytes`.
proof fn aaaa_shape(domain: Seq<u8>, addr: u128, ttl: u32)
    ensures
        aaaa_record_bytes(domain, addr, ttl).len() == encode_name(domain).len() + 26,
{
}

/// The bytes of a record whose payload is a (possibly prefixed) host
/// name.
pub open spec fn name_record_bytes(
    domain: Seq<u8>,
    host: Seq<u8>,
    qtype_num: u16,
    priority: Option<u16>,
    ttl: u32,
) -> Seq<u8> {
    let rdata = match priority {
        Some(p) => u16_bytes(p) + encode_name(host),
        None => encode_name(host),
    };
    encode_name(domain) + u16_bytes(qtype_num) + u16_bytes(1) + u32_bytes(ttl) + u16_bytes(
        rdata.len() as u16,
    ) + rdata
}

/// Unfolds the length accounting of `name_record_bytes`.
proof fn rdata_shape(domain: Seq<u8>, host: Seq<u8>, qtype_num: u16, priority: Option<u16>, ttl: u32)
    ensures
        name_record_bytes(domain, host, qtype_num, priority, ttl).len() == encode_name(
            domain,
        ).len() + 10 + (match priority {
            Some(_) => 2int,
            None => 0int,
        }) + encode_name(host).len(),
{
}

} // verus!

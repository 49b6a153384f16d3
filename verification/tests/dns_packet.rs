use wireproto::dns::packet::DnsPacket;
use wireproto::dns::packet_buf::BytePacketBuffer;
use wireproto::dns::query_type::QueryType;
use wireproto::dns::question::DnsQuestion;
use wireproto::dns::record::DnsRecord;
use wireproto::dns::result_code::ResultCode;

fn query_fixture() -> BytePacketBuffer {
    // A captured-style 512-byte query datagram: id 0x1234, RD set, one
    // question for `A? example.com`, zero-padded to the full packet.
    let mut buf = BytePacketBuffer::new();
    let bytes: [u8; 29] = [
        0x12, 0x34, // id
        0x01, 0x00, // flags: RD
        0x00, 0x01, // one question
        0x00, 0x00, 0x00, 0x00, 0x00, 0x00, // no records
        7, b'e', b'x', b'a', b'm', b'p', b'l', b'e', 3, b'c', b'o', b'm', 0, // qname
        0x00, 0x01, // type A
        0x00, 0x01, // class IN
    ];
    for (i, b) in bytes.iter().enumerate() {
        buf.set(i, *b).unwrap();
    }
    buf
}

#[test]
fn decoding_then_reencoding_a_query_is_byte_identical() {
    let mut buf = query_fixture();
    let original = buf.buf.clone();

    let mut packet = DnsPacket::read(&mut buf).unwrap();
    assert_eq!(packet.header.id, 0x1234);
    assert!(packet.header.recursion_desired);
    assert_eq!(packet.questions.len(), 1);
    assert_eq!(packet.questions[0].name, b"example.com".to_vec());
    assert_eq!(packet.questions[0].qtype, QueryType::A);

    let mut out = BytePacketBuffer::new();
    packet.write(&mut out).unwrap();
    assert_eq!(out.buf, original);
}

#[test]
fn section_counts_are_recomputed_on_encode() {
    let mut packet = DnsPacket::new();
    packet.header.id = 1;
    // A stale, wrong count must be overwritten by the real lengths.
    packet.header.questions = 40;
    packet.questions.push(DnsQuestion::new(b"a.example".to_vec(), QueryType::A));
    packet.answers.push(DnsRecord::A { domain: b"a.example".to_vec(), addr: 9, ttl: 1 });
    packet.answers.push(DnsRecord::A { domain: b"a.example".to_vec(), addr: 10, ttl: 1 });

    let mut out = BytePacketBuffer::new();
    packet.write(&mut out).unwrap();
    assert_eq!(&out.buf[4..12], &[0x00, 0x01, 0x00, 0x02, 0x00, 0x00, 0x00, 0x00]);
    assert_eq!(packet.header.questions, 1);
    assert_eq!(packet.header.answers, 2);
}

#[test]
fn unknown_records_are_dropped_on_reencode() {
    let mut packet = DnsPacket::new();
    packet.questions.push(DnsQuestion::new(b"example.com".to_vec(), QueryType::A));
    packet.answers.push(DnsRecord::UNKNOWN {
        domain: b"example.com".to_vec(),
        qtype: 99,
        data_len: 3,
        ttl: 7,
    });
    packet.answers.push(DnsRecord::A { domain: b"example.com".to_vec(), addr: 1, ttl: 1 });

    let mut out = BytePacketBuffer::new();
    packet.write(&mut out).unwrap();

    // The header still counts both answers, but only the A record's
    // bytes follow: the message equals one without the unknown record,
    // except for that count.
    assert_eq!(&out.buf[6..8], &[0x00, 0x02]);
    let mut without = DnsPacket::new();
    without.questions.push(DnsQuestion::new(b"example.com".to_vec(), QueryType::A));
    without.answers.push(DnsRecord::A { domain: b"example.com".to_vec(), addr: 1, ttl: 1 });
    let mut out2 = BytePacketBuffer::new();
    without.write(&mut out2).unwrap();
    let mut patched = out.buf.clone();
    patched[7] = 0x01;
    assert_eq!(patched, out2.buf);
}

#[test]
fn first_a_record_is_found_among_answers() {
    let mut packet = DnsPacket::new();
    assert_eq!(packet.get_random_a(), None);
    packet.answers.push(DnsRecord::NS {
        domain: b"com".to_vec(),
        host: b"ns.com".to_vec(),
        ttl: 1,
    });
    packet.answers.push(DnsRecord::A { domain: b"x.com".to_vec(), addr: 0xC0A80101, ttl: 1 });
    packet.answers.push(DnsRecord::A { domain: b"y.com".to_vec(), addr: 0xC0A80202, ttl: 1 });
    assert_eq!(packet.get_random_a(), Some(0xC0A80101));
}

#[test]
fn ns_records_match_by_suffix_of_the_query_name() {
    let mut packet = DnsPacket::new();
    packet.authorities.push(DnsRecord::NS {
        domain: b"example.com".to_vec(),
        host: b"ns1.example.com".to_vec(),
        ttl: 1,
    });
    packet.authorities.push(DnsRecord::NS {
        domain: b"org".to_vec(),
        host: b"ns.org".to_vec(),
        ttl: 1,
    });
    packet.authorities.push(DnsRecord::NS {
        domain: b"com".to_vec(),
        host: b"ns.gtld.net".to_vec(),
        ttl: 1,
    });

    let pairs = packet.get_ns(&b"www.example.com".to_vec());
    assert_eq!(pairs.len(), 2);
    assert_eq!(pairs[0].0, b"example.com".to_vec());
    assert_eq!(pairs[0].1, b"ns1.example.com".to_vec());
    assert_eq!(pairs[1].0, b"com".to_vec());
    assert_eq!(pairs[1].1, b"ns.gtld.net".to_vec());
}

#[test]
fn glue_resolution_prefers_the_first_pair_with_an_address() {
    let mut packet = DnsPacket::new();
    packet.authorities.push(DnsRecord::NS {
        domain: b"example.com".to_vec(),
        host: b"ns1.example.com".to_vec(),
        ttl: 1,
    });
    packet.authorities.push(DnsRecord::NS {
        domain: b"com".to_vec(),
        host: b"ns.gtld.net".to_vec(),
        ttl: 1,
    });
    packet.resources.push(DnsRecord::A {
        domain: b"ns.gtld.net".to_vec(),
        addr: 0x0A0A0A0A,
        ttl: 1,
    });

    let qname = b"www.example.com".to_vec();
    // ns1.example.com has no glue, so ns.gtld.net's address is used.
    assert_eq!(packet.get_resolve_ns(&qname), Some(0x0A0A0A0A));
    // The first pair without glue is ns1.example.com.
    assert_eq!(packet.get_unresolved_ns(&qname), Some(b"ns1.example.com".to_vec()));
}

#[test]
fn unresolved_ns_is_none_when_all_pairs_have_glue() {
    let mut packet = DnsPacket::new();
    packet.authorities.push(DnsRecord::NS {
        domain: b"com".to_vec(),
        host: b"ns.gtld.net".to_vec(),
        ttl: 1,
    });
    packet.resources.push(DnsRecord::A {
        domain: b"ns.gtld.net".to_vec(),
        addr: 0x0A0B0C0D,
        ttl: 1,
    });
    let qname = b"www.example.com".to_vec();
    assert_eq!(packet.get_unresolved_ns(&qname), None);
    assert_eq!(packet.get_resolve_ns(&qname), Some(0x0A0B0C0D));
}

#[test]
fn messages_too_large_for_the_buffer_fail_to_encode() {
    let mut packet = DnsPacket::new();
    for _ in 0..20 {
        packet.answers.push(DnsRecord::A {
            domain: b"a-rather-long-name.example.com".to_vec(),
            addr: 1,
            ttl: 1,
        });
    }
    let mut out = BytePacketBuffer::new();
    assert!(packet.write(&mut out).is_err());
}

#[test]
fn a_response_with_nxdomain_survives_the_wire() {
    let mut packet = DnsPacket::new();
    packet.header.id = 0xCAFE;
    packet.header.response = true;
    packet.header.rescode = ResultCode::NXDOMAIN;
    packet.questions.push(DnsQuestion::new(b"no.such.example".to_vec(), QueryType::A));

    let mut out = BytePacketBuffer::new();
    packet.write(&mut out).unwrap();
    let mut rd = BytePacketBuffer::new();
    rd.buf = out.buf.clone();
    let back = DnsPacket::read(&mut rd).unwrap();
    assert_eq!(back.header.id, 0xCAFE);
    assert!(back.header.response);
    assert_eq!(back.header.rescode, ResultCode::NXDOMAIN);
    assert_eq!(back.questions[0].name, b"no.such.example".to_vec());
}

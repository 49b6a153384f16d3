use wireproto::dns::errors::DnsError;
use wireproto::dns::header::DnsHeader;
use wireproto::dns::packet_buf::BytePacketBuffer;
use wireproto::dns::query_type::QueryType;
use wireproto::dns::question::DnsQuestion;
use wireproto::dns::record::DnsRecord;
use wireproto::dns::result_code::ResultCode;

fn fresh_buffer() -> BytePacketBuffer {
    BytePacketBuffer::new()
}

#[test]
fn scalar_reads_and_writes_are_big_endian() {
    let mut buf = fresh_buffer();
    buf.write_u16(0xBEEF).unwrap();
    buf.write_u32(0x01020304).unwrap();
    buf.write_u8(0x7F).unwrap();
    assert_eq!(buf.pos(), 7);
    assert_eq!(&buf.buf[..7], &[0xBE, 0xEF, 0x01, 0x02, 0x03, 0x04, 0x7F]);

    buf.seek(0).unwrap();
    assert_eq!(buf.read_u16().unwrap(), 0xBEEF);
    assert_eq!(buf.read_u32().unwrap(), 0x01020304);
    assert_eq!(buf.read().unwrap(), 0x7F);
}

#[test]
fn reads_past_capacity_fail_with_end_of_buffer() {
    let mut buf = fresh_buffer();
    buf.seek(510).unwrap();
    assert_eq!(buf.read_u16().unwrap(), 0);
    assert_eq!(buf.read(), Err(DnsError::EndOfBuffer));
    assert_eq!(buf.read_u32(), Err(DnsError::EndOfBuffer));
    assert_eq!(buf.get(512), Err(DnsError::EndOfBuffer));
    assert_eq!(buf.get_range(509, 4), Err(DnsError::EndOfBuffer));
}

#[test]
fn writes_past_capacity_fail_with_end_of_buffer() {
    let mut buf = fresh_buffer();
    buf.seek(511).unwrap();
    assert_eq!(buf.write_u16(1), Err(DnsError::EndOfBuffer));
    assert_eq!(buf.write(1), Ok(()));
    assert_eq!(buf.write(1), Err(DnsError::EndOfBuffer));
    assert_eq!(buf.set_u16(511, 7), Err(DnsError::EndOfBuffer));
}

#[test]
fn set_u16_backpatches_without_moving_the_cursor() {
    let mut buf = fresh_buffer();
    buf.write_u32(0).unwrap();
    buf.set_u16(1, 0x1234).unwrap();
    assert_eq!(buf.pos(), 4);
    assert_eq!(&buf.buf[..4], &[0x00, 0x12, 0x34, 0x00]);
}

#[test]
fn qname_round_trips_lower_cased() {
    let mut buf = fresh_buffer();
    buf.write_qname(&b"WWW.Example.COM".to_vec()).unwrap();
    assert_eq!(
        &buf.buf[..17],
        &[
            3, b'W', b'W', b'W', 7, b'E', b'x', b'a', b'm', b'p', b'l', b'e', 3, b'C', b'O', b'M',
            0
        ]
    );

    buf.seek(0).unwrap();
    let mut out = Vec::new();
    buf.read_qname(&mut out).unwrap();
    assert_eq!(out, b"www.example.com".to_vec());
    assert_eq!(buf.pos(), 17);
}

#[test]
fn the_empty_name_is_one_empty_label_and_a_terminator() {
    let mut buf = fresh_buffer();
    buf.write_qname(&Vec::new()).unwrap();
    assert_eq!(&buf.buf[..2], &[0, 0]);
    assert_eq!(buf.pos(), 2);

    buf.seek(0).unwrap();
    let mut out = Vec::new();
    buf.read_qname(&mut out).unwrap();
    assert_eq!(out, Vec::<u8>::new());
    // The decoder stops at the first zero octet.
    assert_eq!(buf.pos(), 1);
}

#[test]
fn qname_labels_longer_than_63_bytes_are_rejected() {
    let mut buf = fresh_buffer();
    let long = vec![b'a'; 64];
    assert_eq!(buf.write_qname(&long), Err(DnsError::LabelTooLong));

    let ok = vec![b'a'; 63];
    assert!(buf.write_qname(&ok).is_ok());
}

#[test]
fn qname_that_does_not_fit_fails_with_end_of_buffer() {
    let mut buf = fresh_buffer();
    buf.seek(508).unwrap();
    assert_eq!(buf.write_qname(&b"example.com".to_vec()), Err(DnsError::EndOfBuffer));
}

#[test]
fn compression_pointer_reads_the_earlier_name() {
    // The name at offset 2 is "abc"; the name at offset 10 starts with
    // a label and then points back at it.
    let mut buf = fresh_buffer();
    buf.seek(2).unwrap();
    buf.write_qname(&b"abc".to_vec()).unwrap();
    buf.seek(10).unwrap();
    buf.write(2).unwrap();
    buf.write(b'x').unwrap();
    buf.write(b'y').unwrap();
    buf.write(0xC0).unwrap();
    buf.write(0x02).unwrap();

    buf.seek(10).unwrap();
    let mut out = Vec::new();
    buf.read_qname(&mut out).unwrap();
    assert_eq!(out, b"xy.abc".to_vec());
    // The cursor ends just past the two pointer bytes, not at the
    // pointed-to name.
    assert_eq!(buf.pos(), 15);
}

#[test]
fn pointer_chains_fail_past_the_jump_limit() {
    // A terminal name sits at offset 100; offsets 0, 2, 4, ... form a
    // pointer chain onto it.
    let mut buf = fresh_buffer();
    buf.seek(100).unwrap();
    buf.write_qname(&b"end".to_vec()).unwrap();
    // ptr at 8 -> 100, ptr at 6 -> 8, ptr at 4 -> 6, ptr at 2 -> 4,
    // ptr at 0 -> 2: five jumps in all from offset 0.
    for (at, to) in [(8u16, 100u16), (6, 8), (4, 6), (2, 4), (0, 2)] {
        buf.set_u16(at as usize, 0xC000 | to).unwrap();
    }

    // Exactly five jumps succeed.
    buf.seek(0).unwrap();
    let mut out = Vec::new();
    buf.read_qname(&mut out).unwrap();
    assert_eq!(out, b"end".to_vec());
    assert_eq!(buf.pos(), 2);

    // A sixth jump in front of the chain fails.
    buf.set_u16(10, 0xC000).unwrap();
    buf.seek(10).unwrap();
    let mut out = Vec::new();
    assert_eq!(buf.read_qname(&mut out), Err(DnsError::TooManyJumps));
}

#[test]
fn header_round_trips_through_the_wire_bytes() {
    let h = DnsHeader {
        id: 0xABCD,
        recursion_desired: true,
        recursion_available: true,
        response: true,
        rescode: ResultCode::NXDOMAIN,
        questions: 1,
        answers: 2,
        authoritative_entries: 3,
        resource_entries: 4,
    };
    let mut buf = fresh_buffer();
    h.write(&mut buf).unwrap();
    assert_eq!(
        &buf.buf[..12],
        &[0xAB, 0xCD, 0x81, 0x83, 0x00, 0x01, 0x00, 0x02, 0x00, 0x03, 0x00, 0x04]
    );

    buf.seek(0).unwrap();
    let mut back = DnsHeader::new();
    back.read(&mut buf).unwrap();
    assert_eq!(back, h);
}

#[test]
fn unknown_result_codes_decode_as_noerror() {
    assert_eq!(ResultCode::from_num(0), ResultCode::NOERROR);
    assert_eq!(ResultCode::from_num(3), ResultCode::NXDOMAIN);
    assert_eq!(ResultCode::from_num(9), ResultCode::NOERROR);
    assert_eq!(ResultCode::from_num(255), ResultCode::NOERROR);
}

#[test]
fn unknown_query_types_keep_their_wire_value() {
    assert_eq!(QueryType::from_num(1), QueryType::A);
    assert_eq!(QueryType::from_num(28), QueryType::AAA);
    assert_eq!(QueryType::from_num(16), QueryType::UNKNOWN(16));
    assert_eq!(QueryType::UNKNOWN(16).to_num(), 16);
    assert_eq!(QueryType::MX.to_num(), 15);
}

#[test]
fn question_round_trips_with_class_in() {
    let q = DnsQuestion::new(b"example.com".to_vec(), QueryType::A);
    let mut buf = fresh_buffer();
    q.write(&mut buf).unwrap();
    assert_eq!(
        &buf.buf[..17],
        &[
            7, b'e', b'x', b'a', b'm', b'p', b'l', b'e', 3, b'c', b'o', b'm', 0, 0x00, 0x01, 0x00,
            0x01
        ]
    );

    buf.seek(0).unwrap();
    let mut back = DnsQuestion::new(Vec::new(), QueryType::UNKNOWN(0));
    back.read(&mut buf).unwrap();
    assert_eq!(back.name, b"example.com".to_vec());
    assert_eq!(back.qtype, QueryType::A);
}

#[test]
fn a_record_round_trips_byte_exactly() {
    let rec = DnsRecord::A { domain: b"example.com".to_vec(), addr: 0x5DB8D822, ttl: 3600 };
    let mut buf = fresh_buffer();
    let written = rec.write(&mut buf).unwrap();
    assert_eq!(written, 13 + 2 + 2 + 4 + 2 + 4);
    assert_eq!(
        &buf.buf[13..27],
        &[0x00, 0x01, 0x00, 0x01, 0x00, 0x00, 0x0E, 0x10, 0x00, 0x04, 0x5D, 0xB8, 0xD8, 0x22]
    );

    buf.seek(0).unwrap();
    match DnsRecord::read(&mut buf).unwrap() {
        DnsRecord::A { domain, addr, ttl } => {
            assert_eq!(domain, b"example.com".to_vec());
            assert_eq!(addr, 0x5DB8D822);
            assert_eq!(ttl, 3600);
        },
        other => panic!("wrong record variant: {:?}", other),
    }
}

#[test]
fn ns_record_backpatches_its_payload_length() {
    let rec = DnsRecord::NS { domain: b"com".to_vec(), host: b"ns1.example.com".to_vec(), ttl: 60 };
    let mut buf = fresh_buffer();
    rec.write(&mut buf).unwrap();
    // domain (5) + type/class/ttl (8) + length field itself (2), then
    // the host name of 17 bytes.
    assert_eq!(&buf.buf[13..15], &[0x00, 17]);

    buf.seek(0).unwrap();
    match DnsRecord::read(&mut buf).unwrap() {
        DnsRecord::NS { domain, host, ttl } => {
            assert_eq!(domain, b"com".to_vec());
            assert_eq!(host, b"ns1.example.com".to_vec());
            assert_eq!(ttl, 60);
        },
        other => panic!("wrong record variant: {:?}", other),
    }
}

#[test]
fn mx_record_carries_its_priority() {
    let rec = DnsRecord::MX {
        domain: b"example.com".to_vec(),
        priority: 10,
        host: b"mail.example.com".to_vec(),
        ttl: 300,
    };
    let mut buf = fresh_buffer();
    rec.write(&mut buf).unwrap();

    buf.seek(0).unwrap();
    match DnsRecord::read(&mut buf).unwrap() {
        DnsRecord::MX { domain, priority, host, ttl } => {
            assert_eq!(domain, b"example.com".to_vec());
            assert_eq!(priority, 10);
            assert_eq!(host, b"mail.example.com".to_vec());
            assert_eq!(ttl, 300);
        },
        other => panic!("wrong record variant: {:?}", other),
    }
}

#[test]
fn aaaa_record_round_trips_sixteen_bytes() {
    let addr: u128 = 0x2001_0db8_0000_0000_0000_0000_0000_0001;
    let rec = DnsRecord::AAA { domain: b"v6.example.com".to_vec(), addr, ttl: 120 };
    let mut buf = fresh_buffer();
    rec.write(&mut buf).unwrap();

    buf.seek(0).unwrap();
    match DnsRecord::read(&mut buf).unwrap() {
        DnsRecord::AAA { domain, addr: got, ttl } => {
            assert_eq!(domain, b"v6.example.com".to_vec());
            assert_eq!(got, addr);
            assert_eq!(ttl, 120);
        },
        other => panic!("wrong record variant: {:?}", other),
    }
}

#[test]
fn unknown_records_skip_their_payload_on_read_and_write_nothing() {
    let mut buf = fresh_buffer();
    // name "x", type 99, class 1, ttl 7, rdlength 3, three payload bytes.
    buf.write_qname(&b"x".to_vec()).unwrap();
    buf.write_u16(99).unwrap();
    buf.write_u16(1).unwrap();
    buf.write_u32(7).unwrap();
    buf.write_u16(3).unwrap();
    buf.write(0xAA).unwrap();
    buf.write(0xBB).unwrap();
    buf.write(0xCC).unwrap();
    let end = buf.pos();

    buf.seek(0).unwrap();
    let rec = DnsRecord::read(&mut buf).unwrap();
    assert_eq!(buf.pos(), end);
    match &rec {
        DnsRecord::UNKNOWN { domain, qtype, data_len, ttl } => {
            assert_eq!(domain, &b"x".to_vec());
            assert_eq!(*qtype, 99);
            assert_eq!(*data_len, 3);
            assert_eq!(*ttl, 7);
        },
        other => panic!("wrong record variant: {:?}", other),
    }

    let mut out = fresh_buffer();
    assert_eq!(rec.write(&mut out), Ok(0));
    assert_eq!(out.pos(), 0);
}

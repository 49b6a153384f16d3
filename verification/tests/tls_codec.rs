use wireproto::tls::buffer;
use wireproto::tls::codec::{extend_with_prefix_length, u24, BufReader, Codec, ListLength};
use wireproto::tls::crypto::create_random_u8_32;
use wireproto::tls::enums::{HandshakeType, ProtocolVersion};
use wireproto::tls::handshake::{create_client_hello, ExtKeyShare, ExtServerName, Random, SessionId};
use wireproto::tls::record_header::RecordHeader;
use wireproto::tls::utils::IntoU8;

#[test]
fn should_get_into_u8() {
    let x = RecordHeader {
        kind: HandshakeType::CertificateStatus,
        version: ProtocolVersion::TLSv1_0,
        size: 248,
    };
    let bytes: [u8; 5] = x.to_bytes();

    assert_eq!(bytes, [0x16, 0x03, 0x01, 0x00, 0xF8]);
}

#[test]
fn should_encode_ext_server_name() {
    let host = "example.ulfheim.net";
    let mut buf = Vec::new();
    ExtServerName::from_host(host.as_bytes().to_vec()).encode(&mut buf);

    assert_eq!(
        buf,
        &[
            0x0, 0x0, // ext ID
            0x00, 0x18, // total ext length
            0x00, 0x16, // first entry length (and only)
            0x00, // DNS Host name (sni)
            0x00, 0x13, // entry length
            // actual SNI (domain name)
            0x65, 0x78, 0x61, 0x6d, 0x70, 0x6c, 0x65, 0x2e, 0x75, 0x6c, 0x66, 0x68, 0x65, 0x69,
            0x6d, 0x2e, 0x6e, 0x65, 0x74
        ]
    );
    assert!(buf.iter().skip(9).eq(host.as_bytes()));
}

#[test]
fn u16_encodes_big_endian_and_decodes_back() {
    let mut buf = Vec::new();
    0xABCDu16.encode(&mut buf);
    assert_eq!(buf, vec![0xAB, 0xCD]);

    let mut rd = BufReader::new(&buf);
    let v = u16::decode(&mut rd).unwrap();
    assert_eq!(v, 0xABCD);
}

#[test]
fn u32_encodes_big_endian_and_decodes_back() {
    let mut buf = Vec::new();
    0x01020304u32.encode(&mut buf);
    assert_eq!(buf, vec![0x01, 0x02, 0x03, 0x04]);

    let mut rd = BufReader::new(&buf);
    assert_eq!(u32::decode(&mut rd).unwrap(), 0x01020304);
}

#[test]
fn u24_drops_the_high_byte() {
    assert_eq!(u24(0x00ABCDEF).to_be_bytes(), [0xAB, 0xCD, 0xEF]);
    assert_eq!(u24(0xFFABCDEF).to_be_bytes(), [0xAB, 0xCD, 0xEF]);

    let mut buf = Vec::new();
    u24(0x00112233).encode(&mut buf);
    assert_eq!(buf, vec![0x11, 0x22, 0x33]);
    let mut rd = BufReader::new(&buf);
    assert_eq!(u24::decode(&mut rd).unwrap().0, 0x112233);
}

#[test]
fn u8_decode_fails_on_empty_input() {
    let empty: Vec<u8> = Vec::new();
    let mut rd = BufReader::new(&empty);
    assert!(u8::decode(&mut rd).is_err());
}

#[test]
fn reader_take_respects_bounds() {
    let data = [1u8, 2, 3, 4, 5];
    let mut rd = buffer::BufReader::new(&data);
    assert_eq!(rd.left(), 5);
    assert_eq!(rd.take(2), Some(&[1u8, 2][..]));
    assert_eq!(rd.left(), 3);
    assert_eq!(rd.take(4), None);
    assert_eq!(rd.take(3), Some(&[3u8, 4, 5][..]));
    assert_eq!(rd.left(), 0);
}

#[test]
fn sub_reader_covers_exactly_the_chunk() {
    let data = [9u8, 8, 7, 6];
    let mut rd = BufReader::new(&data);
    let mut sub = rd.sub(3).unwrap();
    assert_eq!(sub.left(), 3);
    assert_eq!(sub.take(3), Some(&[9u8, 8, 7][..]));
    assert_eq!(rd.left(), 1);
    assert!(rd.sub(2).is_err());
}

#[test]
fn prefix_length_is_prepended_in_each_width() {
    let payload = [0xAAu8, 0xBB];
    let mut buf = Vec::new();
    extend_with_prefix_length(ListLength::U8, &mut buf, &payload);
    assert_eq!(buf, vec![2, 0xAA, 0xBB]);

    let mut buf = Vec::new();
    extend_with_prefix_length(ListLength::U16, &mut buf, &payload);
    assert_eq!(buf, vec![0, 2, 0xAA, 0xBB]);

    let mut buf = Vec::new();
    extend_with_prefix_length(ListLength::U24, &mut buf, &payload);
    assert_eq!(buf, vec![0, 0, 2, 0xAA, 0xBB]);
}

#[test]
fn session_id_round_trips_through_the_codec() {
    let sid = SessionId::fixed();
    let mut buf = Vec::new();
    sid.encode(&mut buf);
    assert_eq!(buf.len(), 33);
    assert_eq!(buf[0], 32);

    let mut rd = BufReader::new(&buf);
    let back = SessionId::decode(&mut rd).unwrap();
    let mut buf2 = Vec::new();
    back.encode(&mut buf2);
    assert_eq!(buf, buf2);
}

#[test]
fn session_id_decode_rejects_oversized_length() {
    let bytes = [33u8, 0, 0];
    let mut rd = BufReader::new(&bytes);
    assert!(SessionId::decode(&mut rd).is_err());
}

#[test]
fn random_decode_reads_exactly_32_bytes() {
    let mut bytes = Vec::new();
    for i in 0..40u8 {
        bytes.push(i + 1);
    }
    let mut rd = BufReader::new(&bytes);
    let r = Random::decode(&mut rd).unwrap();
    let mut out = Vec::new();
    r.encode(&mut out);
    assert_eq!(out, bytes[..32].to_vec());
    assert_eq!(rd.left(), 8);
}

#[test]
fn byte_at_picks_bytes_from_the_low_end() {
    let x = 0x0301_u16;
    assert_eq!(x.byte_at(1), 0x03);
    assert_eq!(x.byte_at(0), 0x01);

    let y = 0xA1B2C3D4_u32;
    assert_eq!(y.byte_at(0), 0xD4);
    assert_eq!(y.byte_at(1), 0xC3);
    assert_eq!(y.byte_at(2), 0xB2);
    assert_eq!(y.byte_at(3), 0xA1);
}

#[test]
fn time_seeded_bytes_are_nonzero() {
    let bytes = create_random_u8_32();
    assert_eq!(bytes.len(), 32);
    assert!(bytes.iter().all(|b| *b != 0));
}

#[test]
fn client_hello_embeds_the_host_name() {
    let host = b"example.ulfheim.net".to_vec();
    let hello = create_client_hello(host.clone(), &[]);

    // Record header: handshake record, TLS 1.2 on the wire.
    assert_eq!(hello[0], 0x16);
    assert_eq!(&hello[1..3], &[0x03, 0x03]);
    // Record length covers everything after the five header bytes.
    let record_len = ((hello[3] as usize) << 8) | hello[4] as usize;
    assert_eq!(record_len + 5, hello.len());
    // ClientHello handshake header.
    assert_eq!(&hello[5..7], &[0x01, 0x00]);
    // The host name appears verbatim at the tail.
    assert_eq!(&hello[hello.len() - host.len()..], &host[..]);
}

#[test]
fn random_from_slice_pads_with_zeros() {
    let r = Random::from_slice(&[7, 8, 9]);
    let mut out = Vec::new();
    r.encode(&mut out);
    assert_eq!(out.len(), 32);
    assert_eq!(&out[..3], &[7, 8, 9]);
    assert!(out[3..].iter().all(|b| *b == 0));
}

#[test]
fn ext_key_share_decodes_group_and_key() {
    // Outer size 38 covers an inner chunk of: key length + 2 (0x22),
    // the group id, and 32 key bytes, with two spare bytes.
    let mut bytes = vec![0x00, 0x26, 0x00, 0x22, 0x00, 0x1d];
    for i in 0..32u8 {
        bytes.push(i + 1);
    }
    bytes.push(0xEE);
    bytes.push(0xEE);

    let mut rd = BufReader::new(&bytes);
    let share = ExtKeyShare::decode(&mut rd).unwrap();
    assert_eq!(rd.left(), 0);

    let mut out = Vec::new();
    share.encode(&mut out);
    // The re-encoded share names the same group and carries the same
    // 32 key bytes at its tail.
    assert_eq!(&out[6..8], &[0x00, 0x1d]);
    assert_eq!(&out[10..], &bytes[6..38]);
}

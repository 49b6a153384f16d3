use wireproto::dns::packet::DnsPacket;
use wireproto::dns::packet_buf::BytePacketBuffer;
use wireproto::dns::query_type::QueryType;
use wireproto::dns::question::DnsQuestion;
use wireproto::dns::record::DnsRecord;
use wireproto::dns::resolver::{ResolveStep, Resolver, STEP_BUDGET};
use wireproto::dns::result_code::ResultCode;
use wireproto::dns::service::build_response;

const SEED: u32 = 0xC6290004;

fn answer_packet(domain: &[u8], addr: u32) -> DnsPacket {
    let mut p = DnsPacket::new();
    p.header.response = true;
    p.answers.push(DnsRecord::A { domain: domain.to_vec(), addr, ttl: 60 });
    p
}

fn delegation_without_glue(zone: &[u8], host: &[u8]) -> DnsPacket {
    let mut p = DnsPacket::new();
    p.header.response = true;
    p.authorities.push(DnsRecord::NS { domain: zone.to_vec(), host: host.to_vec(), ttl: 60 });
    p
}

fn delegation_with_glue(zone: &[u8], host: &[u8], addr: u32) -> DnsPacket {
    let mut p = delegation_without_glue(zone, host);
    p.resources.push(DnsRecord::A { domain: host.to_vec(), addr, ttl: 60 });
    p
}

fn nxdomain_packet(id: u16) -> DnsPacket {
    let mut p = DnsPacket::new();
    p.header.id = id;
    p.header.response = true;
    p.header.rescode = ResultCode::NXDOMAIN;
    p
}

fn expect_ask(step: &ResolveStep) -> (u32, Vec<u8>, QueryType) {
    match step {
        ResolveStep::Ask { server, qname, qtype } => (*server, qname.clone(), *qtype),
        other => panic!("expected a question, got {}", step_name(other)),
    }
}

fn step_name(step: &ResolveStep) -> &'static str {
    match step {
        ResolveStep::Ask { .. } => "Ask",
        ResolveStep::Done(_) => "Done",
        ResolveStep::Fail => "Fail",
    }
}

#[test]
fn resolution_follows_a_glued_delegation_to_the_answer() {
    let (mut m, step) = Resolver::start(b"www.example.com".to_vec(), QueryType::A, SEED);
    let (server, qname, qtype) = expect_ask(&step);
    assert_eq!(server, SEED);
    assert_eq!(qname, b"www.example.com".to_vec());
    assert_eq!(qtype, QueryType::A);

    // The seed delegates .com with glue.
    let step = m.on_response(delegation_with_glue(b"com", b"ns.gtld.net", 0x0A000001));
    let (server, qname, _) = expect_ask(&step);
    assert_eq!(server, 0x0A000001);
    assert_eq!(qname, b"www.example.com".to_vec());

    // The gtld server answers.
    let step = m.on_response(answer_packet(b"www.example.com", 0x5DB8D822));
    match step {
        ResolveStep::Done(p) => {
            assert_eq!(p.get_random_a(), Some(0x5DB8D822));
            assert_eq!(p.header.rescode, ResultCode::NOERROR);
            assert!(!p.answers.is_empty());
        },
        other => panic!("expected the answer, got {}", step_name(&other)),
    }
}

#[test]
fn a_delegation_without_glue_resolves_the_nameserver_first() {
    let (mut m, _) = Resolver::start(b"www.example.com".to_vec(), QueryType::A, SEED);

    // Delegation without glue: the machine must resolve the
    // nameserver's own address, starting again from the seed.
    let step = m.on_response(delegation_without_glue(b"com", b"ns1.nameserver.net"));
    let (server, qname, qtype) = expect_ask(&step);
    assert_eq!(server, SEED);
    assert_eq!(qname, b"ns1.nameserver.net".to_vec());
    assert_eq!(qtype, QueryType::A);

    // The nested resolution produces the nameserver's address; the
    // original question is retried against it.
    let step = m.on_response(answer_packet(b"ns1.nameserver.net", 0x0B000002));
    let (server, qname, qtype) = expect_ask(&step);
    assert_eq!(server, 0x0B000002);
    assert_eq!(qname, b"www.example.com".to_vec());
    assert_eq!(qtype, QueryType::A);

    // And the delegated server answers.
    let step = m.on_response(answer_packet(b"www.example.com", 0x5DB8D822));
    match step {
        ResolveStep::Done(p) => assert_eq!(p.get_random_a(), Some(0x5DB8D822)),
        other => panic!("expected the answer, got {}", step_name(&other)),
    }
}

#[test]
fn nxdomain_is_returned_unmodified_at_once() {
    let (mut m, _) = Resolver::start(b"no.such.example".to_vec(), QueryType::A, SEED);
    let step = m.on_response(nxdomain_packet(0x7777));
    match step {
        ResolveStep::Done(p) => {
            assert_eq!(p.header.rescode, ResultCode::NXDOMAIN);
            assert_eq!(p.header.id, 0x7777);
            assert!(p.answers.is_empty());
        },
        other => panic!("expected the negative answer, got {}", step_name(&other)),
    }
}

#[test]
fn a_response_with_no_usable_authority_ends_the_resolution() {
    let (mut m, _) = Resolver::start(b"www.example.com".to_vec(), QueryType::A, SEED);
    // An empty NOERROR response: no answers, no delegation.
    let mut empty = DnsPacket::new();
    empty.header.response = true;
    empty.header.id = 0x4242;
    let step = m.on_response(empty);
    match step {
        ResolveStep::Done(p) => assert_eq!(p.header.id, 0x4242),
        other => panic!("expected the best-effort response, got {}", step_name(&other)),
    }
}

#[test]
fn resolution_terminates_within_its_budget_on_a_delegation_loop() {
    // A malicious server that always delegates back to itself with
    // glue: the machine must fail closed, not loop.
    let (mut m, mut step) = Resolver::start(b"www.example.com".to_vec(), QueryType::A, SEED);
    let mut asks: u32 = 1;
    loop {
        match step {
            ResolveStep::Ask { .. } => {
                step = m.on_response(delegation_with_glue(b"com", b"ns.gtld.net", 0x0A000001));
                asks += 1;
                assert!(asks <= STEP_BUDGET + 2, "resolver did not fail closed");
            },
            ResolveStep::Fail => break,
            ResolveStep::Done(_) => panic!("a delegation loop cannot produce an answer"),
        }
    }
}

#[test]
fn a_network_error_fails_the_resolution() {
    let (mut m, _) = Resolver::start(b"www.example.com".to_vec(), QueryType::A, SEED);
    let step = m.on_error();
    assert!(matches!(step, ResolveStep::Fail));
}

fn request_with_question(id: u16) -> DnsPacket {
    let mut request = DnsPacket::new();
    request.header.id = id;
    request.header.recursion_desired = true;
    request.questions.push(DnsQuestion::new(b"example.com".to_vec(), QueryType::A));
    request
}

#[test]
fn end_to_end_delegation_without_glue_yields_one_answer() {
    // Client asks `A? example.com`; the seed returns an NS delegation
    // without glue; the delegated server returns one A record.
    let request = request_with_question(0x1234);

    let (mut m, step) = Resolver::start(b"example.com".to_vec(), QueryType::A, SEED);
    let (server, _, _) = expect_ask(&step);
    assert_eq!(server, SEED);
    let step = m.on_response(delegation_without_glue(b"com", b"ns1.nameserver.net"));
    let (_, qname, _) = expect_ask(&step);
    assert_eq!(qname, b"ns1.nameserver.net".to_vec());
    let step = m.on_response(answer_packet(b"ns1.nameserver.net", 0x0B000002));
    let (server, _, _) = expect_ask(&step);
    assert_eq!(server, 0x0B000002);
    let step = m.on_response(answer_packet(b"example.com", 0x5DB8D822));
    let result = match step {
        ResolveStep::Done(p) => p,
        other => panic!("expected the answer, got {}", step_name(&other)),
    };

    let mut response = build_response(request, Some(result));
    assert_eq!(response.header.id, 0x1234);
    assert_eq!(response.header.rescode, ResultCode::NOERROR);
    assert_eq!(response.answers.len(), 1);

    // The encoded reply carries ANCOUNT=1 and the echoed id.
    let mut out = BytePacketBuffer::new();
    response.write(&mut out).unwrap();
    assert_eq!(&out.buf[0..2], &[0x12, 0x34]);
    assert_eq!(&out.buf[6..8], &[0x00, 0x01]);
}

#[test]
fn a_request_with_zero_questions_yields_formerr() {
    let mut request = DnsPacket::new();
    request.header.id = 0x2222;
    let response = build_response(request, None);
    assert_eq!(response.header.rescode, ResultCode::FORMERR);
    assert_eq!(response.header.id, 0x2222);
    assert!(response.answers.is_empty());
    assert!(response.questions.is_empty());
}

#[test]
fn an_upstream_failure_yields_servfail() {
    // The resolver reports failure (as after a socket error); the
    // client sees SERVFAIL and no answers.
    let request = request_with_question(0x3333);
    let (mut m, _) = Resolver::start(b"example.com".to_vec(), QueryType::A, SEED);
    let step = m.on_error();
    assert!(matches!(step, ResolveStep::Fail));

    let response = build_response(request, None);
    assert_eq!(response.header.rescode, ResultCode::SERVFAIL);
    assert_eq!(response.header.id, 0x3333);
    assert!(response.answers.is_empty());
    assert!(response.questions.is_empty());
}

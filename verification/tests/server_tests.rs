use tiny_dns::database::{RecordEntity, RecordQuery};
use tiny_dns::nameserver::{local_query, try_answer};
use tiny_dns::protocol::answer::AnswerEntry;
use tiny_dns::protocol::packet::{
    Flags, HeaderFlags, OpCode, Packet, PacketBuilder, PacketHeader, Question, RecordType,
    ResourceRecord, ResponseCode,
};
use tiny_dns::protocol::util::encode_domain;
use tiny_dns::resolver::Resolver;
use tiny_dns::server::exchange::{Action, Event, Exchange, Phase};
use tiny_dns::server::handle_packet::{handle_packet, recursion_desired, respond_flags};
use tiny_dns::server::serve::{
    failure_response, format_error_response, name_error_response, receive, respond, Received,
};
use tiny_dns::DnsError;

fn record(name: &str, data: u8) -> ResourceRecord {
    ResourceRecord::default()
        .with_name(name.to_string())
        .with_rtype(RecordType::NS)
        .with_ttl(300)
        .with_rdata(vec![data])
}

fn entry(
    resource: Option<ResourceRecord>,
    authoritive: bool,
    authority: Option<ResourceRecord>,
    additional: Vec<ResourceRecord>,
) -> AnswerEntry {
    AnswerEntry {
        resource,
        authoritive,
        authority,
        additional,
    }
}

fn query(name: &str, qtype: RecordType, qclass: u16, flags: u16, id: u16) -> Packet {
    PacketBuilder::new()
        .with_id(id)
        .with_flags(HeaderFlags::from(flags))
        .with_qentry(
            Question::default()
                .with_name(name.to_string())
                .with_qtype(qtype.code())
                .with_qclass(qclass),
        )
        .build()
}

fn expect_lookup(action: Action) -> RecordQuery {
    match action {
        Action::Lookup(query) => query,
        other => panic!("expected a lookup, got {:?}", other),
    }
}

fn expect_forward(action: Action) -> ((String, u16), Vec<u8>) {
    match action {
        Action::Forward { server, query } => (server, query),
        other => panic!("expected a forward, got {:?}", other),
    }
}

fn expect_respond(action: Action) -> Packet {
    match action {
        Action::Respond(packet) => packet,
        other => panic!("expected a response, got {:?}", other),
    }
}

#[test]
fn assembler_keeps_one_copy_of_equal_authorities() {
    let request = query("dns.is.tiny", RecordType::A, 1, 0x0100, 5);
    let entries = vec![
        entry(None, false, Some(record("ns.tiny", 1)), vec![]),
        entry(None, false, Some(record("ns.tiny", 1)), vec![]),
        entry(None, false, Some(record("ns.tiny", 2)), vec![]),
        entry(None, false, Some(record("ns.tiny", 1)), vec![]),
    ];
    let response = handle_packet(&request, entries).unwrap();
    assert_eq!(
        response.authorities,
        vec![record("ns.tiny", 1), record("ns.tiny", 2)]
    );
    assert_eq!(response.header.nscount, 2);
    assert!(response.answers.is_empty());
    assert!(response.additionals.is_empty());
}

#[test]
fn assembler_keeps_every_distinct_additional_once() {
    let request = query("dns.is.tiny", RecordType::A, 1, 0, 5);
    let entries = vec![
        entry(
            Some(record("a", 0)),
            true,
            None,
            vec![record("x", 1), record("y", 2), record("x", 1)],
        ),
        entry(None, true, None, vec![record("z", 3), record("y", 2)]),
        entry(None, true, None, vec![]),
    ];
    let response = handle_packet(&request, entries).unwrap();
    assert_eq!(
        response.additionals,
        vec![record("x", 1), record("y", 2), record("z", 3)]
    );
    assert_eq!(response.header.arcount, 3);
}

#[test]
fn assembler_keeps_equal_answers() {
    let request = query("dns.is.tiny", RecordType::A, 1, 0, 5);
    let entries = vec![
        entry(Some(record("a", 1)), true, None, vec![]),
        entry(Some(record("a", 1)), true, None, vec![]),
        entry(None, true, None, vec![]),
        entry(Some(record("b", 2)), true, None, vec![]),
    ];
    let response = handle_packet(&request, entries).unwrap();
    assert_eq!(
        response.answers,
        vec![record("a", 1), record("a", 1), record("b", 2)]
    );
    assert_eq!(response.header.ancount, 3);
}

#[test]
fn assembler_is_authoritative_only_if_every_entry_is() {
    let request = query("dns.is.tiny", RecordType::A, 1, 0x0100, 0x4242);
    let all = vec![
        entry(Some(record("a", 1)), true, None, vec![]),
        entry(Some(record("b", 1)), true, None, vec![]),
    ];
    let response = handle_packet(&request, all).unwrap();
    assert_eq!(response.header.flags, 0x8480);
    assert_eq!(response.header.id, 0x4242);
    assert_eq!(response.questions, request.questions);
    assert_eq!(response.header.qdcount, 1);
    let one_not = vec![
        entry(Some(record("a", 1)), true, None, vec![]),
        entry(None, false, None, vec![]),
        entry(Some(record("b", 1)), true, None, vec![]),
    ];
    let response = handle_packet(&request, one_not).unwrap();
    assert_eq!(response.header.flags, 0x8080);
}

#[test]
fn assembler_fails_without_answer_or_authority() {
    let request = query("dns.is.tiny", RecordType::A, 1, 0, 5);
    assert_eq!(
        handle_packet(&request, vec![]).unwrap_err(),
        DnsError::NoAnswerable
    );
    let only_additional = vec![entry(None, true, None, vec![record("x", 1)])];
    assert_eq!(
        handle_packet(&request, only_additional).unwrap_err(),
        DnsError::NoAnswerable
    );
    let only_authority = vec![entry(None, true, Some(record("x", 1)), vec![])];
    assert!(handle_packet(&request, only_authority).is_ok());
}

#[test]
fn response_flags_echo_the_opcode() {
    assert_eq!(
        respond_flags(0x0000, ResponseCode::NoError, false).serialize(),
        0x8080
    );
    assert_eq!(
        respond_flags(0x0100, ResponseCode::NoError, true).serialize(),
        0x8480
    );
    assert_eq!(
        respond_flags(0x0800, ResponseCode::NameError, false).serialize(),
        0x8883
    );
    assert_eq!(
        respond_flags(0x2F7F, ResponseCode::FormatError, false).serialize(),
        0xA881
    );
    assert_eq!(
        respond_flags(0x1000, ResponseCode::NoError, false).0,
        OpCode::Status
    );
    for word in [0u16, 0x0800, 0x1000, 0x1800, 0x2000, 0x2800, 0x3000, 0x3800, 0xFFFF] {
        let packed = respond_flags(word, ResponseCode::Refused, true).serialize();
        assert_eq!(packed & 0x3800, word & 0x3800);
        assert_eq!(packed & 0x000F, 5);
        assert_eq!(packed & 0xC7F0, 0x8480);
    }
}

#[test]
fn recursion_desired_reads_the_rd_flag() {
    assert!(recursion_desired(&query("a", RecordType::A, 1, 0x0100, 1)));
    assert!(recursion_desired(&query("a", RecordType::A, 1, 0xFFFF, 1)));
    assert!(!recursion_desired(&query("a", RecordType::A, 1, 0x0000, 1)));
    assert!(!recursion_desired(&query("a", RecordType::A, 1, 0xFEFF, 1)));
}

#[test]
fn name_error_echoes_id_opcode_and_questions() {
    let request = query("dns.is.tiny", RecordType::A, 1, 0x0900, 0x1234);
    let response = name_error_response(&request);
    assert_eq!(response.header.id, 0x1234);
    assert_eq!(response.header.flags, 0x8883);
    assert_eq!(response.questions, request.questions);
    assert_eq!(response.header.qdcount, 1);
    assert!(response.answers.is_empty());
    assert!(response.authorities.is_empty());
    assert!(response.additionals.is_empty());
    assert!(respond(&request, vec![]) == response);
    let answered = respond(&request, vec![entry(Some(record("a", 1)), true, None, vec![])]);
    assert_eq!(answered.header.flags, 0x8C80);
    assert_eq!(answered.answers, vec![record("a", 1)]);
}

#[test]
fn failure_response_holds_what_it_is_given() {
    let questions = vec![Question::default().with_name("q".to_string())];
    let response = failure_response(77, 0x1000, ResponseCode::ServerFailure, questions.clone());
    assert_eq!(
        response.header,
        PacketHeader {
            id: 77,
            flags: 0x9082,
            qdcount: 1,
            ancount: 0,
            nscount: 0,
            arcount: 0,
        }
    );
    assert_eq!(response.questions, questions);
}

#[test]
fn datagram_without_an_id_gets_no_response() {
    for data in [vec![], vec![0x12u8]] {
        let received = receive(&data);
        assert!(matches!(received, Received::Unparseable));
        assert!(format_error_response(&received).is_none());
    }
}

#[test]
fn datagram_shorter_than_a_header_gets_format_error_under_its_id() {
    for len in 2..12usize {
        let mut data = vec![0xFFu8; len];
        data[0] = 0xAB;
        data[1] = 0xCD;
        let received = receive(&data);
        assert!(matches!(received, Received::IdOnlyParsed(0xABCD)));
        let response = format_error_response(&received).unwrap();
        assert_eq!(response.header.id, 0xABCD);
        let flags = HeaderFlags::from(response.header.flags);
        assert_eq!(flags.0, OpCode::Query);
        assert_eq!(flags.2, ResponseCode::FormatError);
        assert_eq!(response.header.flags, 0x8081);
        assert_eq!(response.header.qdcount, 0);
        assert!(response.questions.is_empty());
        assert!(response.answers.is_empty());
        assert!(response.authorities.is_empty());
        assert!(response.additionals.is_empty());
        assert_eq!(
            response.serialize().unwrap(),
            vec![0xAB, 0xCD, 0x80, 0x81, 0, 0, 0, 0, 0, 0, 0, 0]
        );
    }
}

#[test]
fn datagram_with_a_header_only_gets_format_error_with_its_opcode() {
    // A status query that counts one question and holds none.
    let data: Vec<u8> = vec![0x00, 0x2A, 0x11, 0x00, 0, 1, 0, 0, 0, 0, 0, 0];
    let received = receive(&data);
    match &received {
        Received::HeaderOnlyParsed(header) => {
            assert_eq!(header.id, 0x2A);
            assert_eq!(header.flags, 0x1100);
            assert_eq!(header.qdcount, 1);
        }
        other => panic!("expected a header, got {:?}", other),
    }
    let response = format_error_response(&received).unwrap();
    assert_eq!(response.header.id, 0x2A);
    assert_eq!(response.header.flags, 0x9081);
    assert_eq!(HeaderFlags::from(response.header.flags).0, OpCode::Status);
    assert!(response.questions.is_empty());
    assert_eq!(response.header.qdcount, 0);
}

#[test]
fn datagram_that_parses_is_handed_on() {
    let request = query("dns.is.tiny", RecordType::A, 1, 0x0100, 3);
    let data = request.serialize().unwrap();
    let received = receive(&data);
    match &received {
        Received::FullyParsed(packet) => assert!(*packet == request),
        other => panic!("expected a message, got {:?}", other),
    }
    assert!(format_error_response(&received).is_none());
}

#[test]
fn end_to_end_miss_without_recursion_is_a_name_error() {
    let request = query("dns.is.tiny", RecordType::A, 1, 0x0000, 0x0BAD);
    let resolver = Resolver::default().with_fallback_server(("192.0.2.1".to_string(), 53));
    let (exchange, action) = Exchange::begin(request.clone(), &resolver, true);
    assert_eq!(exchange.phase(), Phase::Local);
    let lookup = expect_lookup(action);
    assert_eq!(lookup.domain_name(), Some("dns.is.tiny".to_string()));
    assert_eq!(lookup.record_type(), Some(RecordType::A));
    let (exchange, action) = exchange.advance(&resolver, Event::Found(None));
    assert_eq!(exchange.phase(), Phase::Finished);
    let response = expect_respond(action);
    let flags = HeaderFlags::from(response.header.flags);
    assert_eq!(flags.2, ResponseCode::NameError);
    assert!(!flags.has_flag(Flags::AA));
    assert!(flags.has_flag(Flags::QR));
    assert!(flags.has_flag(Flags::RA));
    assert_eq!(response.header.id, 0x0BAD);
    assert_eq!(response.questions, request.questions);
    assert!(response.answers.is_empty());
    assert!(response.authorities.is_empty());
    assert!(response.additionals.is_empty());
}

#[test]
fn end_to_end_miss_with_unreachable_fallback_is_a_name_error() {
    let request = query("dns.is.tiny", RecordType::A, 1, 0x0100, 0x0BAD);
    let resolver = Resolver::default().with_fallback_server(("192.0.2.1".to_string(), 53));
    let (exchange, action) = Exchange::begin(request.clone(), &resolver, true);
    expect_lookup(action);
    let (exchange, action) = exchange.advance(&resolver, Event::Found(None));
    assert_eq!(exchange.phase(), Phase::Upstream);
    let (server, sent) = expect_forward(action);
    assert_eq!(server, ("192.0.2.1".to_string(), 53));
    let upstream = Packet::deserialize(&sent).unwrap();
    assert_eq!(upstream.header.id, 1);
    assert_eq!(upstream.header.flags, 0x0100);
    assert_eq!(upstream.questions, request.questions);
    let (exchange, action) = exchange.advance(&resolver, Event::Replied(None));
    assert_eq!(exchange.phase(), Phase::Finished);
    let response = expect_respond(action);
    assert_eq!(response.header.flags, 0x8083);
    assert_eq!(response.header.id, 0x0BAD);
    assert_eq!(response.questions, request.questions);
}

#[test]
fn end_to_end_store_hit_is_authoritative() {
    let target = encode_domain("dns.is.tidy".to_string()).unwrap();
    let stored = RecordEntity::default()
        .with_domain_name("dns.is.tiny".to_string())
        .with_record_type(RecordType::CNAME)
        .with_record_value(target.clone())
        .with_ttl(120);
    let request = query("dns.is.tiny", RecordType::CNAME, 1, 0x0000, 0x7777);
    let resolver = Resolver::default();
    let (exchange, action) = Exchange::begin(request.clone(), &resolver, true);
    let lookup = expect_lookup(action);
    assert_eq!(lookup.domain_name(), Some("dns.is.tiny".to_string()));
    assert_eq!(lookup.record_type(), Some(RecordType::CNAME));
    let (_, action) = exchange.advance(&resolver, Event::Found(Some(stored)));
    let response = expect_respond(action);
    let flags = HeaderFlags::from(response.header.flags);
    assert!(flags.has_flag(Flags::AA));
    assert_eq!(flags.2, ResponseCode::NoError);
    assert_eq!(response.header.id, 0x7777);
    assert_eq!(response.header.ancount, 1);
    assert_eq!(response.answers.len(), 1);
    assert_eq!(response.answers[0].name(), "dns.is.tiny");
    assert_eq!(response.answers[0].rdata(), target);
    assert_eq!(response.answers[0].rtype(), RecordType::CNAME);
    assert_eq!(response.answers[0].rclass(), 1);
    assert_eq!(response.answers[0].ttl(), 120);
    assert_eq!(response.questions, request.questions);
}

#[test]
fn exchange_tries_fallbacks_in_order_until_one_can_be_read() {
    let request = query("dns.is.tiny", RecordType::A, 1, 0x0100, 9);
    let resolver = Resolver::default()
        .with_fallback_server(("first".to_string(), 53))
        .with_fallback_server(("second".to_string(), 5353))
        .with_fallback_server(("third".to_string(), 53));
    // No local store: every question is delegated without a lookup.
    let (exchange, action) = Exchange::begin(request.clone(), &resolver, false);
    let (server, sent) = expect_forward(action);
    assert_eq!(server, ("first".to_string(), 53));
    let (exchange, action) = exchange.advance(&resolver, Event::Replied(None));
    let (server, again) = expect_forward(action);
    assert_eq!(server, ("second".to_string(), 5353));
    assert_eq!(again, sent);
    let upstream = PacketBuilder::new()
        .with_id(1)
        .with_flags(HeaderFlags::from(0x8580))
        .with_qentries(request.questions.clone())
        .with_aentry(record("dns.is.tiny", 4))
        .with_authentry(record("tiny", 5))
        .with_addentry(record("ns.tiny", 6))
        .build()
        .serialize()
        .unwrap();
    let (exchange, action) = exchange.advance(&resolver, Event::Replied(Some(upstream)));
    assert_eq!(exchange.phase(), Phase::Finished);
    let response = expect_respond(action);
    assert_eq!(response.header.id, 9);
    // Answers from elsewhere are not given with authority.
    assert_eq!(response.header.flags, 0x8080);
    assert_eq!(response.answers, vec![record("dns.is.tiny", 4)]);
    assert_eq!(response.authorities, vec![record("tiny", 5)]);
    assert_eq!(response.additionals, vec![record("ns.tiny", 6)]);
    // Once ended, the exchange stays ended with the same response.
    let (exchange, action) = exchange.advance(&resolver, Event::Replied(None));
    assert_eq!(exchange.phase(), Phase::Finished);
    assert!(expect_respond(action) == response);
}

#[test]
fn exchange_skips_replies_that_cannot_be_read() {
    let request = query("dns.is.tiny", RecordType::A, 1, 0x0100, 9);
    let resolver = Resolver::default()
        .with_fallback_server(("first".to_string(), 53))
        .with_fallback_server(("second".to_string(), 53));
    let (exchange, action) = Exchange::begin(request.clone(), &resolver, false);
    expect_forward(action);
    let (exchange, action) = exchange.advance(&resolver, Event::Replied(Some(vec![1, 2, 3])));
    let (server, _) = expect_forward(action);
    assert_eq!(server.0, "second");
    let (exchange, action) = exchange.advance(&resolver, Event::Replied(Some(vec![0; 11])));
    assert_eq!(exchange.phase(), Phase::Finished);
    let response = expect_respond(action);
    assert_eq!(response.header.flags, 0x8083);
}

#[test]
fn exchange_without_fallback_ends_at_once() {
    let request = query("dns.is.tiny", RecordType::A, 1, 0x0100, 9);
    let resolver = Resolver::default();
    let (exchange, action) = Exchange::begin(request.clone(), &resolver, false);
    assert_eq!(exchange.phase(), Phase::Finished);
    assert_eq!(expect_respond(action).header.flags, 0x8083);
}

#[test]
fn exchange_looks_up_only_served_classes() {
    let request = PacketBuilder::new()
        .with_id(3)
        .with_qentry(Question::default().with_name("chaos".to_string()).with_qclass(3))
        .with_qentry(Question::default().with_name("any".to_string()).with_qclass(255))
        .with_qentry(Question::default().with_name("hesiod".to_string()).with_qclass(4))
        .with_qentry(Question::default().with_name("in".to_string()).with_qclass(1))
        .build();
    let resolver = Resolver::default();
    let (exchange, action) = Exchange::begin(request.clone(), &resolver, true);
    assert_eq!(expect_lookup(action).domain_name(), Some("any".to_string()));
    let hit = RecordEntity::default()
        .with_record_type(RecordType::A)
        .with_record_value(vec![10, 0, 0, 1]);
    let (exchange, action) = exchange.advance(&resolver, Event::Found(Some(hit)));
    assert_eq!(expect_lookup(action).domain_name(), Some("in".to_string()));
    let (exchange, action) = exchange.advance(&resolver, Event::Found(None));
    assert_eq!(exchange.phase(), Phase::Finished);
    let response = expect_respond(action);
    // One question was answered, three got the empty authority of their zone.
    assert_eq!(response.answers.len(), 1);
    assert_eq!(response.answers[0].name(), "any");
    assert_eq!(response.answers[0].rdata(), vec![10, 0, 0, 1]);
    assert_eq!(response.header.flags, 0x8080);
    assert_eq!(response.questions, request.questions);
}

#[test]
fn exchange_delegates_what_the_store_misses() {
    let request = PacketBuilder::new()
        .with_id(3)
        .with_flags(HeaderFlags::new().with_flag(Flags::RD))
        .with_qentry(Question::default().with_name("here".to_string()))
        .with_qentry(Question::default().with_name("there".to_string()))
        .with_qentry(Question::default().with_name("nowhere".to_string()).with_qclass(9))
        .build();
    let resolver = Resolver::default().with_fallback_server(("up".to_string(), 53));
    let (exchange, action) = Exchange::begin(request.clone(), &resolver, true);
    assert_eq!(expect_lookup(action).domain_name(), Some("here".to_string()));
    let hit = RecordEntity::default().with_record_value(vec![1]);
    let (exchange, action) = exchange.advance(&resolver, Event::Found(Some(hit)));
    assert_eq!(expect_lookup(action).domain_name(), Some("there".to_string()));
    let (exchange, action) = exchange.advance(&resolver, Event::Found(None));
    let (_, sent) = expect_forward(action);
    let upstream = Packet::deserialize(&sent).unwrap();
    assert_eq!(
        upstream.questions,
        vec![request.questions[1].clone(), request.questions[2].clone()]
    );
    // An event of the wrong kind counts as no reply.
    let (exchange, action) = exchange.advance(&resolver, Event::Found(None));
    assert_eq!(exchange.phase(), Phase::Finished);
    let response = expect_respond(action);
    assert_eq!(response.answers.len(), 1);
    assert_eq!(response.answers[0].name(), "here");
    assert_eq!(response.header.flags, 0x8480);
}

#[test]
fn local_policy_filters_classes() {
    let question = Question::default()
        .with_name("dns.is.tiny".to_string())
        .with_qtype(16);
    for class in [1u16, 255] {
        let query = local_query(&question.clone().with_qclass(class)).unwrap();
        assert!(query.is_valid());
        assert_eq!(query.domain_name(), Some("dns.is.tiny".to_string()));
        assert_eq!(query.record_type(), Some(RecordType::TXT));
    }
    for class in [0u16, 2, 3, 4, 254, 256, 0xFFFF] {
        assert!(local_query(&question.clone().with_qclass(class)).is_none());
        let found = Some(RecordEntity::default());
        assert!(try_answer(&question.clone().with_qclass(class), found).is_none());
    }
    assert!(try_answer(&question, None).is_none());
    let found = RecordEntity::default()
        .with_domain_name("elsewhere".to_string())
        .with_record_type(RecordType::TXT)
        .with_record_value(vec![2, b'h', b'i'])
        .with_ttl(5);
    let answer = try_answer(&question, Some(found)).unwrap();
    assert!(answer.authoritive);
    assert!(answer.authority.is_none());
    assert!(answer.additional.is_empty());
    let resource = answer.resource.unwrap();
    assert_eq!(resource.name(), "dns.is.tiny");
    assert_eq!(resource.rtype(), RecordType::TXT);
    assert_eq!(resource.rclass(), 1);
    assert_eq!(resource.ttl(), 5);
    assert_eq!(resource.rdata(), vec![2, b'h', b'i']);
}

use tiny_dns::protocol::packet::{
    Packet, PacketBuilder, PacketHeader, Question, RecordType, ResourceRecord,
};
use tiny_dns::DnsError;

fn sample_record() -> ResourceRecord {
    ResourceRecord::default()
        .with_name("example.com".to_string())
        .with_rtype(RecordType::A)
        .with_rclass(1)
        .with_ttl(3600)
        .with_rdata(vec![192, 0, 2, 1])
}

#[test]
fn test_packet_serialize_deserialize() {
    let header = PacketHeader {
        id: 0x1234,
        flags: 0x0100,
        qdcount: 1,
        ancount: 1,
        nscount: 1,
        arcount: 1,
    };

    let question = Question::default()
        .with_name("example.com".to_string())
        .with_qtype(RecordType::A.code())
        .with_qclass(1);

    let resource_record = ResourceRecord::default()
        .with_name("example.com".to_string())
        .with_rtype(RecordType::A)
        .with_rclass(1)
        .with_ttl(3600)
        .with_rdata(vec![192, 0, 2, 1]);

    let packet = Packet {
        header,
        questions: vec![question],
        answers: vec![resource_record.clone()],
        authorities: vec![resource_record.clone()],
        additionals: vec![resource_record.clone()],
    };

    let serialized = packet.serialize().expect("Failed to serialize packet");
    let deserialized = Packet::deserialize(&serialized).expect("Failed to deserialize packet");

    assert_eq!(packet.header, deserialized.header);
    assert_eq!(packet.questions, deserialized.questions);
    assert_eq!(packet.answers, deserialized.answers);
    assert_eq!(packet.authorities, deserialized.authorities);
    assert_eq!(packet.additionals, deserialized.additionals);
}

#[test]
fn packet_serializes_to_exact_bytes() {
    let packet = PacketBuilder::new()
        .with_id(0xBEEF)
        .with_qentry(
            Question::default()
                .with_name("a.bc".to_string())
                .with_qtype(28)
                .with_qclass(1),
        )
        .with_aentry(
            ResourceRecord::default()
                .with_name("a.bc".to_string())
                .with_rtype(RecordType::AAAA)
                .with_ttl(0x01020304)
                .with_rdata(vec![9, 8]),
        )
        .build();
    let bytes = packet.serialize().unwrap();
    let expected: Vec<u8> = vec![
        0xBE, 0xEF, 0, 0, 0, 1, 0, 1, 0, 0, 0, 0, // header
        1, b'a', 2, b'b', b'c', 0, 0, 28, 0, 1, // question
        1, b'a', 2, b'b', b'c', 0, 0, 28, 0, 1, 1, 2, 3, 4, 0, 2, 9, 8, // answer
    ];
    assert_eq!(bytes, expected);
}

#[test]
fn packet_round_trip_is_whole_packet_equality() {
    let packet = PacketBuilder::new()
        .with_id(7)
        .with_qentry(Question::default().with_name("dns.is.tiny".to_string()))
        .with_aentry(sample_record())
        .with_aentry(sample_record().with_name("".to_string()))
        .with_authentry(sample_record().with_rdata(vec![]))
        .with_addentry(sample_record().with_ttl(u32::MAX))
        .build();
    let bytes = packet.serialize().unwrap();
    let back = Packet::deserialize(&bytes).unwrap();
    assert!(packet == back);
    assert_eq!(back.serialize().unwrap(), bytes);
}

#[test]
fn packet_decodes_compressed_names_across_sections() {
    // A response whose answer name points back at the question name.
    let bytes: Vec<u8> = vec![
        0x12, 0x34, 0x81, 0x80, 0, 1, 0, 1, 0, 0, 0, 0, // header
        3, b'w', b'w', b'w', 7, b'e', b'x', b'a', b'm', b'p', b'l', b'e', 3, b'c', b'o', b'm', 0,
        0, 1, 0, 1, // question at offset 12
        0xC0, 12, 0, 1, 0, 1, 0, 0, 0, 60, 0, 4, 93, 184, 216, 34, // answer
    ];
    let packet = Packet::deserialize(&bytes).unwrap();
    assert_eq!(packet.header.id, 0x1234);
    assert_eq!(packet.questions.len(), 1);
    assert_eq!(packet.questions[0].name(), "www.example.com");
    assert_eq!(packet.answers.len(), 1);
    assert_eq!(packet.answers[0].name(), "www.example.com");
    assert_eq!(packet.answers[0].ttl(), 60);
    assert_eq!(packet.answers[0].rdata(), vec![93, 184, 216, 34]);
    assert!(packet.authorities.is_empty());
    assert!(packet.additionals.is_empty());
}

#[test]
fn packet_decode_ignores_trailing_bytes() {
    let packet = PacketBuilder::new()
        .with_qentry(Question::default().with_name("x.y".to_string()))
        .build();
    let mut bytes = packet.serialize().unwrap();
    bytes.extend_from_slice(&[1, 2, 3]);
    assert!(Packet::deserialize(&bytes).unwrap() == packet);
}

#[test]
fn packet_decode_reports_truncation() {
    assert_eq!(Packet::deserialize(&[]).unwrap_err(), DnsError::Truncated);
    assert_eq!(
        Packet::deserialize(&[0; 11]).unwrap_err(),
        DnsError::Truncated
    );
    // The header counts one question, but none follows.
    let bytes: Vec<u8> = vec![0, 1, 0, 0, 0, 1, 0, 0, 0, 0, 0, 0];
    assert_eq!(Packet::deserialize(&bytes).unwrap_err(), DnsError::Truncated);
    // An empty message is fine.
    let bytes: Vec<u8> = vec![0, 1, 0, 0, 0, 0, 0, 0, 0, 0, 0, 0];
    let packet = Packet::deserialize(&bytes).unwrap();
    assert_eq!(packet.header.id, 1);
    assert!(packet.questions.is_empty());
}

#[test]
fn packet_encode_reports_invalid_name() {
    let packet = PacketBuilder::new()
        .with_qentry(Question::default().with_name("a..b".to_string()))
        .build();
    assert_eq!(packet.serialize().unwrap_err(), DnsError::InvalidName);
    let packet = PacketBuilder::new()
        .with_addentry(sample_record().with_name("..".to_string()))
        .build();
    assert_eq!(packet.serialize().unwrap_err(), DnsError::InvalidName);
}

#[test]
fn packet_encode_uses_header_as_it_stands() {
    let packet = Packet {
        header: PacketHeader {
            id: 1,
            flags: 2,
            qdcount: 3,
            ancount: 4,
            nscount: 5,
            arcount: 6,
        },
        questions: vec![],
        answers: vec![],
        authorities: vec![],
        additionals: vec![],
    };
    assert_eq!(
        packet.serialize().unwrap(),
        vec![0, 1, 0, 2, 0, 3, 0, 4, 0, 5, 0, 6]
    );
}

#[test]
fn builder_recomputes_counts() {
    let template = Packet {
        header: PacketHeader {
            id: 9,
            flags: 0x8180,
            qdcount: 40,
            ancount: 41,
            nscount: 42,
            arcount: 43,
        },
        questions: vec![Question::default()],
        answers: vec![],
        authorities: vec![],
        additionals: vec![],
    };
    let built = PacketBuilder::from_packet(template)
        .with_aentries(vec![sample_record(), sample_record()])
        .with_authentries(vec![sample_record()])
        .with_addentries(vec![sample_record(), sample_record(), sample_record()])
        .build();
    assert_eq!(built.header.id, 9);
    assert_eq!(built.header.flags, 0x8180);
    assert_eq!(built.header.qdcount, 1);
    assert_eq!(built.header.ancount, 2);
    assert_eq!(built.header.nscount, 1);
    assert_eq!(built.header.arcount, 3);
    assert_eq!(built.answers.len(), 2);
    assert_eq!(built.authorities.len(), 1);
    assert_eq!(built.additionals.len(), 3);
}

#[test]
fn builder_starts_empty_and_appends_in_order() {
    let empty = PacketBuilder::new().build();
    assert_eq!(empty.header, PacketHeader::default());
    assert!(empty.questions.is_empty());
    let first = Question::default().with_name("one".to_string());
    let second = Question::default().with_name("two".to_string());
    let third = Question::default().with_name("three".to_string());
    let built = PacketBuilder::new()
        .with_qentry(first.clone())
        .with_qentries(vec![second.clone(), third.clone()])
        .build();
    assert_eq!(built.questions, vec![first, second, third]);
    assert_eq!(built.header.qdcount, 3);
}

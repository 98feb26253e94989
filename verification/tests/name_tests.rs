use tiny_dns::protocol::name::decode_name;
use tiny_dns::protocol::packet::{Question, RecordType, ResourceRecord};
use tiny_dns::protocol::util::{encode_domain, encode_name_bytes, get_upzone};
use tiny_dns::DnsError;

#[test]
fn encode_domain_root_and_dots() {
    assert_eq!(encode_domain("".to_string()).unwrap(), vec![0]);
    assert_eq!(encode_domain(".".to_string()).unwrap(), vec![0]);
    assert_eq!(
        encode_domain("..".to_string()).unwrap_err(),
        DnsError::InvalidName
    );
    assert_eq!(
        encode_domain("...".to_string()).unwrap_err(),
        DnsError::InvalidName
    );
    assert_eq!(
        encode_domain("a..".to_string()).unwrap_err(),
        DnsError::InvalidName
    );
    assert_eq!(
        encode_domain("..a".to_string()).unwrap_err(),
        DnsError::InvalidName
    );
    assert_eq!(
        encode_domain("example..com".to_string()).unwrap_err(),
        DnsError::InvalidName
    );
    assert_eq!(encode_domain(".a.".to_string()).unwrap(), vec![1, b'a', 0]);
    assert_eq!(encode_domain("com".to_string()).unwrap(), vec![3, b'c', b'o', b'm', 0]);
}

#[test]
fn encode_domain_label_lengths() {
    let label = "x".repeat(63);
    let encoded = encode_domain(format!("{}.y", label)).unwrap();
    assert_eq!(encoded.len(), 1 + 63 + 1 + 1 + 1);
    assert_eq!(encoded[0], 63);
    assert_eq!(encoded[64], 1);
    assert_eq!(encoded[66], 0);
    // A length beyond the byte is cut to its low eight bits.
    let long = "z".repeat(300);
    let encoded = encode_domain(long).unwrap();
    assert_eq!(encoded.len(), 302);
    assert_eq!(encoded[0], 44);
    // Text outside ASCII is counted in bytes.
    let encoded = encode_domain("é.de".to_string()).unwrap();
    assert_eq!(encoded, vec![2, 0xC3, 0xA9, 2, b'd', b'e', 0]);
    assert_eq!(
        encode_name_bytes(b"ab.c").unwrap(),
        vec![2, b'a', b'b', 1, b'c', 0]
    );
}

#[test]
fn decode_name_reads_plain_labels() {
    let buffer: Vec<u8> = vec![9, 9, 3, b'd', b'n', b's', 2, b'i', b's', 4, b't', b'i', b'n', b'y', 0, 7];
    let (name, next) = decode_name(&buffer, 2).unwrap();
    assert_eq!(name, "dns.is.tiny");
    assert_eq!(next, 15);
    let (root, next) = decode_name(&buffer, 14).unwrap();
    assert_eq!(root, "");
    assert_eq!(next, 15);
}

#[test]
fn decode_name_follows_pointers() {
    // offset 0: "tiny" 0 ; offset 6: "is" -> 0 ; offset 11: "dns" -> 6 ; offset 17: -> 11
    let buffer: Vec<u8> = vec![
        4, b't', b'i', b'n', b'y', 0, // 0
        2, b'i', b's', 0xC0, 0, // 6
        3, b'd', b'n', b's', 0xC0, 6, // 11
        0xC0, 11, // 17
        0xFF,
    ];
    assert_eq!(decode_name(&buffer, 0).unwrap(), ("tiny".to_string(), 6));
    assert_eq!(decode_name(&buffer, 6).unwrap(), ("is.tiny".to_string(), 11));
    assert_eq!(
        decode_name(&buffer, 11).unwrap(),
        ("dns.is.tiny".to_string(), 17)
    );
    // A name behind a pointer reads as it reads where it stands, and the
    // pointer counts for two bytes.
    assert_eq!(
        decode_name(&buffer, 17).unwrap(),
        ("dns.is.tiny".to_string(), 19)
    );
}

#[test]
fn decode_name_follows_forward_pointer() {
    let buffer: Vec<u8> = vec![0xC0, 4, 0xAA, 0xBB, 1, b'q', 0];
    assert_eq!(decode_name(&buffer, 0).unwrap(), ("q".to_string(), 2));
}

#[test]
fn decode_name_refuses_pointer_cycles() {
    let own: Vec<u8> = vec![0xC0, 0];
    assert_eq!(
        decode_name(&own, 0).unwrap_err(),
        DnsError::MalformedCompression
    );
    let pair: Vec<u8> = vec![0xC0, 2, 0xC0, 0];
    assert_eq!(
        decode_name(&pair, 0).unwrap_err(),
        DnsError::MalformedCompression
    );
    assert_eq!(
        decode_name(&pair, 2).unwrap_err(),
        DnsError::MalformedCompression
    );
    let with_labels: Vec<u8> = vec![1, b'a', 0xC0, 5, 0, 1, b'b', 0xC0, 0];
    assert_eq!(
        decode_name(&with_labels, 0).unwrap_err(),
        DnsError::MalformedCompression
    );
    let three: Vec<u8> = vec![0xC0, 2, 0xC0, 4, 0xC0, 0];
    assert_eq!(
        decode_name(&three, 0).unwrap_err(),
        DnsError::MalformedCompression
    );
}

#[test]
fn decode_name_reports_truncation() {
    assert_eq!(decode_name(&[], 0).unwrap_err(), DnsError::Truncated);
    assert_eq!(decode_name(&[0], 1).unwrap_err(), DnsError::Truncated);
    assert_eq!(decode_name(&[0], 100).unwrap_err(), DnsError::Truncated);
    assert_eq!(
        decode_name(&[3, b'a', b'b'], 0).unwrap_err(),
        DnsError::Truncated
    );
    assert_eq!(
        decode_name(&[1, b'a'], 0).unwrap_err(),
        DnsError::Truncated
    );
    assert_eq!(decode_name(&[0xC0], 0).unwrap_err(), DnsError::Truncated);
    assert_eq!(
        decode_name(&[0xC0, 9, 0], 0).unwrap_err(),
        DnsError::Truncated
    );
    assert_eq!(
        decode_name(&[0xFF, 0xFF, 0], 0).unwrap_err(),
        DnsError::Truncated
    );
}

#[test]
fn decode_name_refuses_invalid_utf8() {
    assert_eq!(
        decode_name(&[1, 0xFF, 0], 0).unwrap_err(),
        DnsError::InvalidName
    );
    assert_eq!(
        decode_name(&[1, 0xC3, 1, 0xA9, 0], 0).unwrap_err(),
        DnsError::InvalidName
    );
    assert_eq!(
        decode_name(&[2, 0xC3, 0xA9, 0], 0).unwrap(),
        ("é".to_string(), 4)
    );
}

#[test]
fn decode_name_keeps_dots_inside_labels() {
    assert_eq!(
        decode_name(&[3, b'a', b'.', b'b', 0], 0).unwrap(),
        ("a.b".to_string(), 5)
    );
}

#[test]
fn encode_then_decode_gives_the_name_back() {
    for name in ["", "a", "example.com", "dns.is.tiny", "ü.ö.ä", "a.b.c.d.e.f.g"] {
        let mut buffer: Vec<u8> = vec![0xEE; 5];
        buffer.extend(encode_domain(name.to_string()).unwrap());
        let end = buffer.len();
        buffer.extend_from_slice(&[1, 2, 3]);
        assert_eq!(decode_name(&buffer, 5).unwrap(), (name.to_string(), end));
    }
}

#[test]
fn test_get_upzone() {
    assert_eq!(
        get_upzone("sub.example.com".to_string()),
        "example.com".to_string()
    );
    assert_eq!(get_upzone("example.com".to_string()), "com".to_string());
    assert_eq!(get_upzone("com".to_string()), ".".to_string());
}

#[test]
fn get_upzone_edges() {
    assert_eq!(get_upzone("".to_string()), ".");
    assert_eq!(get_upzone(".".to_string()), ".");
    assert_eq!(get_upzone("com.".to_string()), ".");
    assert_eq!(get_upzone(".com".to_string()), "com");
    assert_eq!(get_upzone("a..b".to_string()), ".b");
    assert_eq!(get_upzone("é.ü.de".to_string()), "ü.de");
}

#[test]
fn question_fields_and_size() {
    let question = Question::default();
    assert_eq!(question.name(), "");
    assert_eq!(question.qtype(), RecordType::A);
    assert_eq!(question.qclass(), 1);
    assert_eq!(question.size(), 6);
    let question = question
        .with_name("example.com".to_string())
        .with_qtype(5)
        .with_qclass(255);
    assert_eq!(question.name(), "example.com");
    assert_eq!(question.qtype(), RecordType::CNAME);
    assert_eq!(question.qtype_code(), 5);
    assert_eq!(question.qclass(), 255);
    assert_eq!(question.size(), 17);
    assert_eq!(question.serialize().unwrap().len(), question.size());
    assert_eq!(
        question.clone().with_qtype(999).qtype(),
        RecordType::NULL
    );
    assert_eq!(question.clone().with_qtype(999).qtype_code(), 999);
    assert_eq!(question, question.clone());
    assert_ne!(question, question.clone().with_qclass(1));
    assert_ne!(question, question.clone().with_name("example.org".to_string()));
}

#[test]
fn question_serializes_to_exact_bytes() {
    let question = Question::default()
        .with_name("dns.is.tiny".to_string())
        .with_qtype(0x0102)
        .with_qclass(0x0304);
    assert_eq!(
        question.serialize().unwrap(),
        vec![3, b'd', b'n', b's', 2, b'i', b's', 4, b't', b'i', b'n', b'y', 0, 1, 2, 3, 4]
    );
    assert_eq!(
        Question::default().serialize().unwrap(),
        vec![0, 0, 1, 0, 1]
    );
    assert_eq!(
        Question::default()
            .with_name("a..b".to_string())
            .serialize()
            .unwrap_err(),
        DnsError::InvalidName
    );
}

#[test]
fn question_deserialize_moves_the_cursor() {
    let buffer: Vec<u8> = vec![0xAA, 1, b'a', 0, 0, 16, 0, 255, 0xC0, 1, 0, 1, 0, 1];
    let mut offset = 1;
    let first = Question::deserialize(&buffer, &mut offset).unwrap();
    assert_eq!(offset, 8);
    assert_eq!(first.name(), "a");
    assert_eq!(first.qtype(), RecordType::TXT);
    assert_eq!(first.qclass(), 255);
    assert_eq!(first.size(), 7);
    let second = Question::deserialize(&buffer, &mut offset).unwrap();
    assert_eq!(offset, 14);
    assert_eq!(second.name(), "a");
    assert_eq!(second.qtype(), RecordType::A);
    let mut offset = 14;
    assert_eq!(
        Question::deserialize(&buffer, &mut offset).unwrap_err(),
        DnsError::Truncated
    );
    assert_eq!(offset, 14);
    let short: Vec<u8> = vec![1, b'a', 0, 0, 1, 0];
    let mut offset = 0;
    assert_eq!(
        Question::deserialize(&short, &mut offset).unwrap_err(),
        DnsError::Truncated
    );
    assert_eq!(offset, 0);
}

#[test]
fn record_fields_and_size() {
    let record = ResourceRecord::default();
    assert_eq!(record.name(), "");
    assert_eq!(record.rtype(), RecordType::A);
    assert_eq!(record.rclass(), 1);
    assert_eq!(record.ttl(), 0);
    assert_eq!(record.rdata(), Vec::<u8>::new());
    assert_eq!(record.size(), 12);
    let record = record
        .with_name("example.com".to_string())
        .with_rtype(RecordType::MX)
        .with_rclass(3)
        .with_ttl(86400)
        .with_rdata(vec![1, 2, 3, 4, 5]);
    assert_eq!(record.name(), "example.com");
    assert_eq!(record.rtype(), RecordType::MX);
    assert_eq!(record.rtype_code(), 15);
    assert_eq!(record.rclass(), 3);
    assert_eq!(record.ttl(), 86400);
    assert_eq!(record.rdata(), vec![1, 2, 3, 4, 5]);
    assert_eq!(record.size(), 12 + 11 + 5);
    assert_eq!(record.serialize().unwrap().len(), record.size());
    assert_eq!(record, record.clone());
    assert_ne!(record, record.clone().with_ttl(1));
    assert_ne!(record, record.clone().with_rdata(vec![1, 2, 3, 4, 6]));
}

#[test]
fn record_serializes_to_exact_bytes() {
    let record = ResourceRecord::default()
        .with_name("a.b".to_string())
        .with_rtype(RecordType::CNAME)
        .with_rclass(0x0102)
        .with_ttl(0x0A0B0C0D)
        .with_rdata(vec![0xDE, 0xAD, 0xBE]);
    assert_eq!(
        record.serialize().unwrap(),
        vec![1, b'a', 1, b'b', 0, 0, 5, 1, 2, 0x0A, 0x0B, 0x0C, 0x0D, 0, 3, 0xDE, 0xAD, 0xBE]
    );
}

#[test]
fn record_length_is_derived_from_data() {
    let data = vec![7u8; 300];
    let bytes = ResourceRecord::default()
        .with_name("x".to_string())
        .with_rdata(data.clone())
        .serialize()
        .unwrap();
    assert_eq!(&bytes[11..13], &[0x01, 0x2C]);
    assert_eq!(&bytes[13..], &data[..]);
    let mut offset = 0;
    let back = ResourceRecord::deserialize(&bytes, &mut offset).unwrap();
    assert_eq!(offset, bytes.len());
    assert_eq!(back.rdata(), data);
}

#[test]
fn record_deserialize_reads_length_before_data() {
    let buffer: Vec<u8> = vec![1, b'z', 0, 0, 28, 0, 1, 0, 0, 1, 0, 0, 2, 0xAB, 0xCD, 0xEF];
    let mut offset = 0;
    let record = ResourceRecord::deserialize(&buffer, &mut offset).unwrap();
    assert_eq!(offset, 15);
    assert_eq!(record.name(), "z");
    assert_eq!(record.rtype(), RecordType::AAAA);
    assert_eq!(record.ttl(), 256);
    assert_eq!(record.rdata(), vec![0xAB, 0xCD]);
    assert_eq!(record.size(), 12 + 1 + 2);
}

#[test]
fn record_deserialize_reports_truncation() {
    // The length says four bytes of data, two are there.
    let buffer: Vec<u8> = vec![1, b'z', 0, 0, 1, 0, 1, 0, 0, 0, 0, 0, 4, 1, 2];
    let mut offset = 0;
    assert_eq!(
        ResourceRecord::deserialize(&buffer, &mut offset).unwrap_err(),
        DnsError::Truncated
    );
    assert_eq!(offset, 0);
    // The fixed fields are cut short.
    let mut offset = 0;
    assert_eq!(
        ResourceRecord::deserialize(&buffer[..12], &mut offset).unwrap_err(),
        DnsError::Truncated
    );
    let mut offset = 99;
    assert_eq!(
        ResourceRecord::deserialize(&buffer, &mut offset).unwrap_err(),
        DnsError::Truncated
    );
    assert_eq!(offset, 99);
}

#[test]
fn error_messages() {
    assert_eq!(DnsError::Truncated.message(), "Message is truncated");
    assert_eq!(DnsError::InvalidName.message(), "Invalid domain name");
    assert_eq!(
        DnsError::MalformedCompression.message(),
        "Malformed name compression"
    );
    assert_eq!(
        DnsError::NoAnswerable.message(),
        "No questions could be answered."
    );
}

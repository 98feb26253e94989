use tiny_dns::protocol::packet::{
    Flags, FlagsVec, HeaderFlags, OpCode, PacketHeader, RecordType, ResponseCode,
};
use tiny_dns::DnsError;

#[test]
fn header_serializes_big_endian() {
    let header = PacketHeader {
        id: 0x1234,
        flags: 0x8180,
        qdcount: 1,
        ancount: 0x0203,
        nscount: 0,
        arcount: 0xFFFF,
    };
    assert_eq!(
        header.serialize().unwrap(),
        vec![0x12, 0x34, 0x81, 0x80, 0, 1, 2, 3, 0, 0, 0xFF, 0xFF]
    );
}

#[test]
fn header_deserializes_first_twelve_bytes() {
    let bytes: Vec<u8> = vec![0x12, 0x34, 0x81, 0x80, 0, 1, 2, 3, 0, 0, 0xFF, 0xFF, 7, 7, 7];
    let header = PacketHeader::deserialize(&bytes).unwrap();
    assert_eq!(
        header,
        PacketHeader {
            id: 0x1234,
            flags: 0x8180,
            qdcount: 1,
            ancount: 0x0203,
            nscount: 0,
            arcount: 0xFFFF,
        }
    );
}

#[test]
fn header_shorter_than_twelve_bytes_is_truncated() {
    for len in 0..12 {
        let bytes = vec![0xAAu8; len];
        assert_eq!(
            PacketHeader::deserialize(&bytes).unwrap_err(),
            DnsError::Truncated
        );
    }
    assert!(PacketHeader::deserialize(&[0xAA; 12]).is_ok());
}

#[test]
fn header_round_trip() {
    let header = PacketHeader {
        id: 0xFFFE,
        flags: 0x0001,
        qdcount: 0x0100,
        ancount: 0x0001,
        nscount: 0x8000,
        arcount: 0x7FFF,
    };
    let bytes = header.serialize().unwrap();
    assert_eq!(bytes.len(), 12);
    assert_eq!(PacketHeader::deserialize(&bytes).unwrap(), header);
}

#[test]
fn flags_round_trip_for_every_word() {
    for word in 0..=u16::MAX {
        assert_eq!(HeaderFlags::from(word).serialize(), word);
    }
}

#[test]
fn flags_unpack_named_parts() {
    let flags = HeaderFlags::from(0x8583);
    assert_eq!(flags.0, OpCode::Query);
    assert_eq!(flags.2, ResponseCode::NameError);
    assert!(flags.has_flag(Flags::QR));
    assert!(flags.has_flag(Flags::AA));
    assert!(!flags.has_flag(Flags::TC));
    assert!(flags.has_flag(Flags::RD));
    assert!(flags.has_flag(Flags::RA));
    assert_eq!(HeaderFlags::from(0x0800).0, OpCode::IQuery);
    assert_eq!(HeaderFlags::from(0x1000).0, OpCode::Status);
    assert_eq!(HeaderFlags::from(0x1800).0, OpCode::Unknown);
    assert_eq!(HeaderFlags::from(0x3800).0, OpCode::Unknown);
    assert_eq!(HeaderFlags::from(0x0005).2, ResponseCode::Refused);
    assert_eq!(HeaderFlags::from(0x0006).2, ResponseCode::Unknown);
}

#[test]
fn flags_pack_by_parts() {
    assert_eq!(HeaderFlags::new().serialize(), 0);
    let flags = HeaderFlags::new()
        .with_opcode(OpCode::Status)
        .with_rcode(ResponseCode::Refused)
        .with_flag(Flags::QR)
        .with_flag(Flags::RA);
    assert_eq!(flags.serialize(), 0x9085);
    assert_eq!(flags.without_flag(Flags::QR).serialize(), 0x1085);
    assert_eq!(flags.with_flag(Flags::NULL).serialize(), 0x9085);
    assert_eq!(flags.without_flag(Flags::NULL).serialize(), 0x9085);
    // A code without a name packs as all ones unless it was read as another.
    assert_eq!(
        HeaderFlags::new().with_opcode(OpCode::Unknown).serialize(),
        0x3800
    );
    assert_eq!(
        HeaderFlags::new().with_rcode(ResponseCode::Unknown).serialize(),
        0x000F
    );
    assert_eq!(
        HeaderFlags::from(0x2800).with_flag(Flags::AA).serialize(),
        0x2C00
    );
    // A named code overrides what the word held.
    assert_eq!(
        HeaderFlags::from(0x2807)
            .with_opcode(OpCode::IQuery)
            .with_rcode(ResponseCode::FormatError)
            .serialize(),
        0x0801
    );
}

#[test]
fn opcode_and_rcode_from_numbers() {
    assert_eq!(OpCode::from_u16(0), OpCode::Query);
    assert_eq!(OpCode::from_u16(1), OpCode::IQuery);
    assert_eq!(OpCode::from_u16(2), OpCode::Status);
    assert_eq!(OpCode::from_u16(3), OpCode::Unknown);
    assert_eq!(OpCode::from_u16(u16::MAX), OpCode::Unknown);
    assert_eq!(OpCode::default(), OpCode::Query);
    assert_eq!(ResponseCode::from_u16(0), ResponseCode::NoError);
    assert_eq!(ResponseCode::from_u16(1), ResponseCode::FormatError);
    assert_eq!(ResponseCode::from_u16(2), ResponseCode::ServerFailure);
    assert_eq!(ResponseCode::from_u16(3), ResponseCode::NameError);
    assert_eq!(ResponseCode::from_u16(4), ResponseCode::NotImplemented);
    assert_eq!(ResponseCode::from_u16(5), ResponseCode::Refused);
    assert_eq!(ResponseCode::from_u16(6), ResponseCode::Unknown);
    assert_eq!(ResponseCode::default(), ResponseCode::NoError);
}

#[test]
fn flag_bits_are_fixed() {
    assert_eq!(Flags::QR.bit(), 1 << 15);
    assert_eq!(Flags::AA.bit(), 1 << 10);
    assert_eq!(Flags::TC.bit(), 1 << 9);
    assert_eq!(Flags::RD.bit(), 1 << 8);
    assert_eq!(Flags::RA.bit(), 1 << 7);
    assert_eq!(Flags::NULL.bit(), 0);
    assert_eq!(Flags::default(), Flags::NULL);
}

#[test]
fn flags_vec_lists_named_flags_in_order() {
    assert_eq!(FlagsVec::from(0).flags(), vec![]);
    assert_eq!(
        FlagsVec::from(0xFFFF).flags(),
        vec![Flags::QR, Flags::AA, Flags::TC, Flags::RD, Flags::RA]
    );
    assert_eq!(
        FlagsVec::from(0x8100).flags(),
        vec![Flags::QR, Flags::RD]
    );
    assert_eq!(FlagsVec::from(0x0480).flags(), vec![Flags::AA, Flags::RA]);
}

#[test]
fn record_type_numbers() {
    let known: Vec<(u16, RecordType)> = vec![
        (1, RecordType::A),
        (2, RecordType::NS),
        (3, RecordType::MD),
        (4, RecordType::MF),
        (5, RecordType::CNAME),
        (6, RecordType::SOA),
        (7, RecordType::MB),
        (8, RecordType::MG),
        (9, RecordType::MR),
        (10, RecordType::NULL),
        (11, RecordType::WKS),
        (12, RecordType::PTR),
        (13, RecordType::HINFO),
        (14, RecordType::MINFO),
        (15, RecordType::MX),
        (16, RecordType::TXT),
        (28, RecordType::AAAA),
        (65, RecordType::HTTPS),
        (252, RecordType::AXFR),
        (253, RecordType::MAILB),
        (254, RecordType::MAILA),
        (255, RecordType::BROADCAST),
    ];
    for (code, rtype) in known {
        assert_eq!(RecordType::from(code), rtype);
        assert_eq!(rtype.code(), code);
        assert_eq!(u16::from(rtype), code);
    }
    assert_eq!(RecordType::from(0), RecordType::NULL);
    assert_eq!(RecordType::from(17), RecordType::NULL);
    assert_eq!(RecordType::from(0xFFFF), RecordType::NULL);
}

//! The fixed twelve-byte header of a message.

use crate::error::DnsError;
use crate::protocol::wire::{be16, u16_at};
use bincode::Options;
use vstd::prelude::*;

verus! {

/// How many bytes a header takes on the wire.
pub const HEADER_LEN: usize = 12;

/// The six 16-bit fields that every message starts with.
#[derive(Copy, Clone, Debug, PartialEq, Eq, Structural)]
pub struct PacketHeader {
    pub id: u16,
    pub flags: u16,
    pub qdcount: u16,
    pub ancount: u16,
    pub nscount: u16,
    pub arcount: u16,
}

/// The error of `bincode`. It is carried through unread.
#[verifier::external_type_specification]
#[verifier::external_body]
pub struct ExBincodeErrorKind(bincode::ErrorKind);

/// `bincode::Options::serialize`, configured for fixed-width integers in
/// big-endian order and given six 16-bit integers: it returns the twelve bytes
/// that spell the integers in order, high byte first. No size limit is
/// configured and the bytes go to a vector, so the call does not fail.
#[verifier::external_body]
fn bincode_serialize(id: u16, flags: u16, qd: u16, an: u16, ns: u16, ar: u16) -> (outcome: Result<
    Vec<u8>,
    Box<bincode::ErrorKind>,
>)
    ensures
        outcome is Ok,
        outcome matches Ok(bytes) ==> bytes@ == be16(id) + be16(flags) + be16(qd) + be16(an)
            + be16(ns) + be16(ar),
{
    let words = (id, flags, qd, an, ns, ar);
    bincode::DefaultOptions::new().with_fixint_encoding().with_big_endian().serialize(&words)
}

/// `bincode::Options::deserialize`, configured for fixed-width integers in
/// big-endian order with trailing bytes allowed, and asked for six 16-bit
/// integers: it fails exactly when fewer than twelve bytes are there, and else
/// returns the integers that the first twelve bytes spell, high byte first.
#[verifier::external_body]
fn bincode_deserialize(buffer: &[u8]) -> (outcome: Result<
    (u16, u16, u16, u16, u16, u16),
    Box<bincode::ErrorKind>,
>)
    ensures
        outcome is Ok <==> buffer@.len() >= 12,
        outcome matches Ok(words) ==> words == (
            u16_at(buffer@, 0),
            u16_at(buffer@, 2),
            u16_at(buffer@, 4),
            u16_at(buffer@, 6),
            u16_at(buffer@, 8),
            u16_at(buffer@, 10),
        ),
{
    bincode::DefaultOptions::new().with_fixint_encoding().allow_trailing_bytes().with_big_endian()
        .deserialize(buffer)
}

impl PacketHeader {
    /// The twelve bytes of the header.
    pub open spec fn wire(self) -> Seq<u8> {
        be16(self.id) + be16(self.flags) + be16(self.qdcount) + be16(self.ancount) + be16(
            self.nscount,
        ) + be16(self.arcount)
    }

    /// The header that the first twelve bytes of a buffer spell.
    pub open spec fn parse(buffer: Seq<u8>) -> PacketHeader {
        PacketHeader {
            id: u16_at(buffer, 0),
            flags: u16_at(buffer, 2),
            qdcount: u16_at(buffer, 4),
            ancount: u16_at(buffer, 6),
            nscount: u16_at(buffer, 8),
            arcount: u16_at(buffer, 10),
        }
    }

    /// Encodes the header. It always succeeds, with exactly twelve bytes.
    pub fn serialize(&self) -> (outcome: Result<Vec<u8>, DnsError>)
        ensures
            outcome matches Ok(bytes) && bytes@ == self.wire(),
            self.wire().len() == 12,
    {
        match bincode_serialize(
            self.id,
            self.flags,
            self.qdcount,
            self.ancount,
            self.nscount,
            self.arcount,
        ) {
            Ok(bytes) => Ok(bytes),
            Err(_) => Err(DnsError::Truncated),
        }
    }

    /// Decodes the header at the start of a buffer. Bytes after the twelfth are
    /// left alone.
    pub fn deserialize(buffer: &[u8]) -> (outcome: Result<PacketHeader, DnsError>)
        ensures
            buffer@.len() >= 12 ==> outcome == Ok::<PacketHeader, DnsError>(
                PacketHeader::parse(buffer@),
            ),
            buffer@.len() < 12 ==> outcome == Err::<PacketHeader, DnsError>(DnsError::Truncated),
    {
        match bincode_deserialize(buffer) {
            Ok(words) => Ok(
                PacketHeader {
                    id: words.0,
                    flags: words.1,
                    qdcount: words.2,
                    ancount: words.3,
                    nscount: words.4,
                    arcount: words.5,
                },
            ),
            Err(_) => Err(DnsError::Truncated),
        }
    }
}

impl Default for PacketHeader {
    fn default() -> (header: PacketHeader)
        ensures
            header == (PacketHeader {
                id: 0,
                flags: 0,
                qdcount: 0,
                ancount: 0,
                nscount: 0,
                arcount: 0,
            }),
    {
        PacketHeader { id: 0, flags: 0, qdcount: 0, ancount: 0, nscount: 0, arcount: 0 }
    }
}

/// A header that is encoded and decoded again is the same header, whatever
/// follows its twelve bytes.
pub proof fn lemma_header_round_trip(header: PacketHeader, rest: Seq<u8>)
    ensures
        header.wire().len() == 12,
        PacketHeader::parse(header.wire() + rest) == header,
{
    crate::protocol::wire::lemma_be16_round_trip(header.id);
    crate::protocol::wire::lemma_be16_round_trip(header.flags);
    crate::protocol::wire::lemma_be16_round_trip(header.qdcount);
    crate::protocol::wire::lemma_be16_round_trip(header.ancount);
    crate::protocol::wire::lemma_be16_round_trip(header.nscount);
    crate::protocol::wire::lemma_be16_round_trip(header.arcount);
    let buffer = header.wire() + rest;
    assert(buffer[0] == be16(header.id)[0] && buffer[1] == be16(header.id)[1]);
    assert(buffer[2] == be16(header.flags)[0] && buffer[3] == be16(header.flags)[1]);
    assert(buffer[4] == be16(header.qdcount)[0] && buffer[5] == be16(header.qdcount)[1]);
    assert(buffer[6] == be16(header.ancount)[0] && buffer[7] == be16(header.ancount)[1]);
    assert(buffer[8] == be16(header.nscount)[0] && buffer[9] == be16(header.nscount)[1]);
    assert(buffer[10] == be16(header.arcount)[0] && buffer[11] == be16(header.arcount)[1]);
}

} // verus!

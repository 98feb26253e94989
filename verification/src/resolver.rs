//! Recursive delegation: the query that is sent upstream, and what is made
//! of a reply.

use crate::error::DnsError;
use crate::protocol::answer::{answer_views, empty_answer, AnswerEntry, AnswerView};
use crate::protocol::packet::builder::{counted, PacketBuilder};
use crate::protocol::packet::flags::{Flags, HeaderFlags, OpCode, ResponseCode};
use crate::protocol::packet::header::PacketHeader;
use crate::protocol::packet::packet::{
    packet_of, packet_wire, question_views, record_views, Packet, PacketView,
};
use crate::protocol::packet::question::{Question, QuestionView};
use crate::protocol::packet::resource_record::RecordView;
use vstd::prelude::*;

verus! {

/// The transaction id of every query that is sent upstream.
pub const UPSTREAM_ID: u16 = 0x0001;

/// The resolver: the fallback servers, in the order in which they are tried.
#[derive(Debug)]
pub struct Resolver {
    fallback_servers: Vec<(String, u16)>,
}

/// What a list of servers is: hosts and ports.
pub open spec fn server_views(servers: Seq<(String, u16)>) -> Seq<(Seq<char>, u16)> {
    servers.map_values(|server: (String, u16)| (server.0@, server.1))
}

impl View for Resolver {
    type V = Seq<(Seq<char>, u16)>;

    closed spec fn view(&self) -> Seq<(Seq<char>, u16)> {
        server_views(self.fallback_servers@)
    }
}

/// The query that asks upstream for the given questions: a standard query
/// that desires recursion, under the fixed transaction id.
pub open spec fn upstream_query(questions: Seq<QuestionView>) -> PacketView {
    counted(
        PacketView {
            header: PacketHeader {
                id: UPSTREAM_ID,
                flags: 0x0100,
                qdcount: 0,
                ancount: 0,
                nscount: 0,
                arcount: 0,
            },
            questions,
            answers: Seq::empty(),
            authorities: Seq::empty(),
            additionals: Seq::empty(),
        },
    )
}

/// An upstream reply as it is passed on: the same message without the AA
/// flag, for the reply is not this server's own, and with its counts set from
/// its sections.
pub open spec fn relayed(reply: PacketView) -> PacketView {
    counted(
        PacketView {
            header: PacketHeader {
                flags: HeaderFlags(
                    HeaderFlags::unpack(reply.header.flags).0,
                    reply.header.flags & !Flags::AA.mask(),
                    HeaderFlags::unpack(reply.header.flags).2,
                ).word(),
                ..reply.header
            },
            ..reply
        },
    )
}

/// The flags word that is passed on is the flags word of the reply with the
/// AA bit cleared and every other bit as it was.
pub proof fn lemma_relayed_flags(reply: PacketView)
    ensures
        relayed(reply).header.flags == reply.header.flags & !0x0400u16,
        relayed(reply).header.id == reply.header.id,
        relayed(reply).questions == reply.questions,
        relayed(reply).answers == reply.answers,
        relayed(reply).authorities == reply.authorities,
        relayed(reply).additionals == reply.additionals,
{
    let flags = reply.header.flags;
    let kept = flags & !0x0400u16;
    let opcode = (flags >> 11) & 7;
    let rcode = flags & 15;
    assert(opcode < 8 && rcode < 16 && (kept >> 11) & 7 == opcode && kept & 15 == rcode)
        by (bit_vector)
        requires
            kept == flags & !0x0400u16,
            opcode == (flags >> 11) & 7,
            rcode == flags & 15,
    ;
    assert(crate::protocol::packet::flags::opcode_number(OpCode::of(opcode), kept) == opcode);
    assert(crate::protocol::packet::flags::rcode_number(ResponseCode::of(rcode), kept) == rcode);
    assert((kept & 0xC7F0) | (((kept >> 11) & 7) << 11) | (kept & 15) == kept) by (bit_vector);
}

/// The bytes that are passed on for the bytes of an upstream reply.
pub open spec fn relay_bytes(reply: Seq<u8>) -> Result<Seq<u8>, DnsError> {
    match packet_of(reply) {
        Ok(packet) => packet_wire(relayed(packet)),
        Err(error) => Err(error),
    }
}

/// The entry that one upstream answer record becomes.
pub open spec fn answer_entry(record: RecordView) -> AnswerView {
    AnswerView { resource: Some(record), ..empty_answer() }
}

/// The entry that one upstream authority record becomes.
pub open spec fn authority_entry(record: RecordView) -> AnswerView {
    AnswerView { authority: Some(record), ..empty_answer() }
}

/// The entries that an upstream message becomes: one for each answer record,
/// then one for each authority record, then a single one that holds all the
/// additional records. None of them claims authority.
pub open spec fn upstream_entries(packet: PacketView) -> Seq<AnswerView> {
    packet.answers.map_values(|record: RecordView| answer_entry(record))
        + packet.authorities.map_values(|record: RecordView| authority_entry(record))
        + seq![AnswerView { additional: packet.additionals, ..empty_answer() }]
}

/// What the bytes of an upstream reply resolve to: the entries of the message
/// that the relayed bytes hold, or nothing where the reply, or what is passed
/// on of it, cannot be read.
pub open spec fn resolved(reply: Seq<u8>) -> Option<Seq<AnswerView>> {
    match relay_bytes(reply) {
        Ok(bytes) => match packet_of(bytes) {
            Ok(packet) => Some(upstream_entries(packet)),
            Err(_) => None,
        },
        Err(_) => None,
    }
}

impl Resolver {
    pub fn with_fallback_server(self, server: (String, u16)) -> (resolver: Resolver)
        ensures
            resolver@ == self@.push((server.0@, server.1)),
    {
        let mut fallback_servers = self.fallback_servers;
        proof {
            assert(server_views(fallback_servers@.push(server)) =~= server_views(
                fallback_servers@,
            ).push((server.0@, server.1)));
        }
        fallback_servers.push(server);
        Resolver { fallback_servers }
    }

    /// How many fallback servers are configured.
    pub fn fallback_count(&self) -> (count: usize)
        ensures
            count == self@.len(),
    {
        self.fallback_servers.len()
    }

    /// The fallback server that is tried at the given turn, counted from zero.
    pub fn fallback_server(&self, turn: usize) -> (server: Option<(String, u16)>)
        ensures
            match server {
                Some(server) => turn < self@.len() && (server.0@, server.1) == self@[turn as int],
                None => turn >= self@.len(),
            },
    {
        if turn < self.fallback_servers.len() {
            let host = self.fallback_servers[turn].0.clone();
            let port: u16 = self.fallback_servers[turn].1;
            Some((host, port))
        } else {
            None
        }
    }

    /// The query that is sent upstream for the given questions.
    pub fn recursive_query(questions: Vec<Question>) -> (query: Packet)
        ensures
            query@ == upstream_query(question_views(questions@)),
    {
        let flags = HeaderFlags::new().with_opcode(OpCode::Query).with_rcode(
            ResponseCode::NoError,
        ).with_flag(Flags::RD);
        proof {
            assert(((0u16 | 0x0100u16) & 0xC7F0u16) | (0u16 << 11) | 0u16 == 0x0100u16)
                by (bit_vector);
        }
        let query = PacketBuilder::new().with_flags(flags).with_id(UPSTREAM_ID).with_qentries(
            questions,
        ).build();
        proof {
            assert(Seq::<QuestionView>::empty() + question_views(questions@) =~= question_views(
                questions@,
            ));
        }
        query
    }

    /// Passes an upstream reply on: decodes it, clears its AA flag, and
    /// encodes it again.
    pub fn relay(reply: &[u8]) -> (outcome: Result<Vec<u8>, DnsError>)
        ensures
            match relay_bytes(reply@) {
                Ok(bytes) => outcome matches Ok(passed) && passed@ == bytes,
                Err(error) => outcome == Err::<Vec<u8>, DnsError>(error),
            },
    {
        let proxied = match Packet::deserialize(reply) {
            Ok(packet) => packet,
            Err(error) => {
                return Err(error);
            },
        };
        let flags: HeaderFlags = HeaderFlags::from(proxied.header.flags);
        let builder = PacketBuilder::from_packet(proxied).with_flags(flags.without_flag(Flags::AA));
        builder.build().serialize()
    }

    /// The entries that an upstream message becomes.
    pub fn entries_of(packet: Packet) -> (entries: Vec<AnswerEntry>)
        ensures
            answer_views(entries@) == upstream_entries(packet@),
    {
        let mut entries: Vec<AnswerEntry> = Vec::new();
        let answers = packet.answers;
        let authorities = packet.authorities;
        let additionals = packet.additionals;
        let ghost firsts = record_views(answers@).map_values(
            |record: RecordView| answer_entry(record),
        );
        let ghost seconds = record_views(authorities@).map_values(
            |record: RecordView| authority_entry(record),
        );
        let mut i: usize = 0;
        while i < answers.len()
            invariant
                i <= answers.len(),
                firsts == record_views(answers@).map_values(
                    |record: RecordView| answer_entry(record),
                ),
                answer_views(entries@) == firsts.take(i as int),
            decreases answers.len() - i,
        {
            let entry = AnswerEntry {
                resource: Some(answers[i].clone()),
                authoritive: false,
                authority: None,
                additional: Vec::new(),
            };
            proof {
                assert(entry@.additional =~= Seq::empty());
                assert(answer_views(entries@.push(entry)) =~= answer_views(entries@).push(entry@));
                assert(firsts[i as int] == answer_entry(answers@[i as int]@));
                assert(entry@ == firsts[i as int]);
                assert(firsts.take(i + 1) =~= firsts.take(i as int).push(firsts[i as int]));
            }
            entries.push(entry);
            i += 1;
        }
        assert(firsts.take(i as int) =~= firsts);
        let mut j: usize = 0;
        while j < authorities.len()
            invariant
                j <= authorities.len(),
                seconds == record_views(authorities@).map_values(
                    |record: RecordView| authority_entry(record),
                ),
                answer_views(entries@) == firsts + seconds.take(j as int),
            decreases authorities.len() - j,
        {
            let entry = AnswerEntry {
                resource: None,
                authoritive: false,
                authority: Some(authorities[j].clone()),
                additional: Vec::new(),
            };
            proof {
                assert(entry@.additional =~= Seq::empty());
                assert(answer_views(entries@.push(entry)) =~= answer_views(entries@).push(entry@));
                assert(seconds[j as int] == authority_entry(authorities@[j as int]@));
                assert(entry@ == seconds[j as int]);
                assert(seconds.take(j + 1) =~= seconds.take(j as int).push(seconds[j as int]));
                assert((firsts + seconds.take(j as int)).push(seconds[j as int]) =~= firsts
                    + seconds.take(j + 1));
            }
            entries.push(entry);
            j += 1;
        }
        assert(seconds.take(j as int) =~= seconds);
        let last = AnswerEntry {
            resource: None,
            authoritive: false,
            authority: None,
            additional: additionals,
        };
        proof {
            assert(answer_views(entries@.push(last)) =~= answer_views(entries@).push(last@));
            assert((firsts + seconds).push(last@) =~= firsts + seconds + seq![last@]);
        }
        entries.push(last);
        entries
    }

    /// What an upstream reply resolves to: its entries, or nothing where it
    /// cannot be read, so that the next fallback server is tried.
    pub fn resolve_reply(reply: &[u8]) -> (entries: Option<Vec<AnswerEntry>>)
        ensures
            match resolved(reply@) {
                Some(expected) => entries matches Some(found) && answer_views(found@) == expected,
                None => entries is None,
            },
    {
        let passed = match Resolver::relay(reply) {
            Ok(bytes) => bytes,
            Err(_) => {
                return None;
            },
        };
        match Packet::deserialize(passed.as_slice()) {
            Ok(packet) => Some(Resolver::entries_of(packet)),
            Err(_) => None,
        }
    }

    /// The authority of a zone. No delegation is stored yet: the entry is
    /// empty and claims no authority, whatever the zone.
    pub fn get_zoneauthority(&self, zone: String) -> (entry: AnswerEntry)
        ensures
            entry@ == empty_answer(),
    {
        AnswerEntry::default()
    }
}

impl Default for Resolver {
    fn default() -> (resolver: Resolver)
        ensures
            resolver@ == Seq::<(Seq<char>, u16)>::empty(),
    {
        let resolver = Resolver { fallback_servers: Vec::new() };
        assert(resolver@ =~= Seq::<(Seq<char>, u16)>::empty());
        resolver
    }
}

} // verus!

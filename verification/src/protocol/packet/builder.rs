//! Building a message piece by piece.

use super::flags::HeaderFlags;
use super::header::PacketHeader;
use super::packet::{question_views, record_views, Packet, PacketView};
use super::question::Question;
use super::resource_record::ResourceRecord;
use vstd::prelude::*;

verus! {

/// The count that the header states for a section of the given length: the
/// length itself up to 65535 entries, and its low sixteen bits beyond.
pub open spec fn section_count(length: nat) -> u16 {
    (length % 65536) as u16
}

/// A message with the counts of its header set from its sections.
pub open spec fn counted(draft: PacketView) -> PacketView {
    PacketView {
        header: PacketHeader {
            qdcount: section_count(draft.questions.len()),
            ancount: section_count(draft.answers.len()),
            nscount: section_count(draft.authorities.len()),
            arcount: section_count(draft.additionals.len()),
            ..draft.header
        },
        ..draft
    }
}

/// A message under construction. Its view is the message as drafted so far;
/// the counts of the header are set when the message is built.
pub struct PacketBuilder {
    header: PacketHeader,
    questions: Vec<Question>,
    answers: Vec<ResourceRecord>,
    authorities: Vec<ResourceRecord>,
    additionals: Vec<ResourceRecord>,
}

impl View for PacketBuilder {
    type V = PacketView;

    closed spec fn view(&self) -> PacketView {
        PacketView {
            header: self.header,
            questions: question_views(self.questions@),
            answers: record_views(self.answers@),
            authorities: record_views(self.authorities@),
            additionals: record_views(self.additionals@),
        }
    }
}

impl PacketBuilder {
    /// A draft with a header of zeros and empty sections.
    pub fn new() -> (builder: PacketBuilder)
        ensures
            builder@ == (PacketView {
                header: PacketHeader {
                    id: 0,
                    flags: 0,
                    qdcount: 0,
                    ancount: 0,
                    nscount: 0,
                    arcount: 0,
                },
                questions: Seq::empty(),
                answers: Seq::empty(),
                authorities: Seq::empty(),
                additionals: Seq::empty(),
            }),
    {
        let builder = PacketBuilder {
            header: PacketHeader::default(),
            questions: Vec::new(),
            answers: Vec::new(),
            authorities: Vec::new(),
            additionals: Vec::new(),
        };
        assert(builder@.questions =~= Seq::empty());
        assert(builder@.answers =~= Seq::empty());
        assert(builder@.authorities =~= Seq::empty());
        assert(builder@.additionals =~= Seq::empty());
        builder
    }

    /// A draft that starts as a copy of a message.
    pub fn from_packet(packet: Packet) -> (builder: PacketBuilder)
        ensures
            builder@ == packet@,
    {
        PacketBuilder {
            header: packet.header,
            questions: packet.questions,
            answers: packet.answers,
            authorities: packet.authorities,
            additionals: packet.additionals,
        }
    }

    pub fn with_id(self, id: u16) -> (builder: PacketBuilder)
        ensures
            builder@ == (PacketView { header: PacketHeader { id, ..self@.header }, ..self@ }),
    {
        PacketBuilder {
            header: PacketHeader {
                id,
                flags: self.header.flags,
                qdcount: self.header.qdcount,
                ancount: self.header.ancount,
                nscount: self.header.nscount,
                arcount: self.header.arcount,
            },
            questions: self.questions,
            answers: self.answers,
            authorities: self.authorities,
            additionals: self.additionals,
        }
    }

    pub fn with_flags(self, flags: HeaderFlags) -> (builder: PacketBuilder)
        ensures
            builder@ == (PacketView {
                header: PacketHeader { flags: flags.word(), ..self@.header },
                ..self@
            }),
    {
        PacketBuilder {
            header: PacketHeader {
                id: self.header.id,
                flags: flags.serialize(),
                qdcount: self.header.qdcount,
                ancount: self.header.ancount,
                nscount: self.header.nscount,
                arcount: self.header.arcount,
            },
            questions: self.questions,
            answers: self.answers,
            authorities: self.authorities,
            additionals: self.additionals,
        }
    }

    /// Appends one entry to the question section.
    pub fn with_qentry(self, qentry: Question) -> (builder: PacketBuilder)
        ensures
            builder@ == (PacketView { questions: self@.questions.push(qentry@), ..self@ }),
    {
        let mut questions = self.questions;
        proof {
            assert(question_views(questions@.push(qentry)) =~= question_views(questions@).push(qentry@));
        }
        questions.push(qentry);
        PacketBuilder {
            header: self.header,
            questions: questions,
            answers: self.answers,
            authorities: self.authorities,
            additionals: self.additionals,
        }
    }

    /// Appends entries, in their order, to the question section.
    pub fn with_qentries(self, qentries: Vec<Question>) -> (builder: PacketBuilder)
        ensures
            builder@ == (PacketView {
                questions: self@.questions + question_views(qentries@),
                ..self@
            }),
    {
        let mut questions = self.questions;
        let mut more = qentries;
        proof {
            assert(question_views(questions@ + more@) =~= question_views(questions@) + question_views(more@));
        }
        questions.append(&mut more);
        PacketBuilder {
            header: self.header,
            questions: questions,
            answers: self.answers,
            authorities: self.authorities,
            additionals: self.additionals,
        }
    }

    /// Appends one entry to the answer section.
    pub fn with_aentry(self, aentry: ResourceRecord) -> (builder: PacketBuilder)
        ensures
            builder@ == (PacketView { answers: self@.answers.push(aentry@), ..self@ }),
    {
        let mut answers = self.answers;
        proof {
            assert(record_views(answers@.push(aentry)) =~= record_views(answers@).push(aentry@));
        }
        answers.push(aentry);
        PacketBuilder {
            header: self.header,
            questions: self.questions,
            answers: answers,
            authorities: self.authorities,
            additionals: self.additionals,
        }
    }

    /// Appends entries, in their order, to the answer section.
    pub fn with_aentries(self, aentries: Vec<ResourceRecord>) -> (builder: PacketBuilder)
        ensures
            builder@ == (PacketView {
                answers: self@.answers + record_views(aentries@),
                ..self@
            }),
    {
        let mut answers = self.answers;
        let mut more = aentries;
        proof {
            assert(record_views(answers@ + more@) =~= record_views(answers@) + record_views(more@));
        }
        answers.append(&mut more);
        PacketBuilder {
            header: self.header,
            questions: self.questions,
            answers: answers,
            authorities: self.authorities,
            additionals: self.additionals,
        }
    }

    /// Appends one entry to the authority section.
    pub fn with_authentry(self, authentry: ResourceRecord) -> (builder: PacketBuilder)
        ensures
            builder@ == (PacketView { authorities: self@.authorities.push(authentry@), ..self@ }),
    {
        let mut authorities = self.authorities;
        proof {
            assert(record_views(authorities@.push(authentry)) =~= record_views(authorities@).push(authentry@));
        }
        authorities.push(authentry);
        PacketBuilder {
            header: self.header,
            questions: self.questions,
            answers: self.answers,
            authorities: authorities,
            additionals: self.additionals,
        }
    }

    /// Appends entries, in their order, to the authority section.
    pub fn with_authentries(self, authentries: Vec<ResourceRecord>) -> (builder: PacketBuilder)
        ensures
            builder@ == (PacketView {
                authorities: self@.authorities + record_views(authentries@),
                ..self@
            }),
    {
        let mut authorities = self.authorities;
        let mut more = authentries;
        proof {
            assert(record_views(authorities@ + more@) =~= record_views(authorities@) + record_views(more@));
        }
        authorities.append(&mut more);
        PacketBuilder {
            header: self.header,
            questions: self.questions,
            answers: self.answers,
            authorities: authorities,
            additionals: self.additionals,
        }
    }

    /// Appends one entry to the additional section.
    pub fn with_addentry(self, addentry: ResourceRecord) -> (builder: PacketBuilder)
        ensures
            builder@ == (PacketView { additionals: self@.additionals.push(addentry@), ..self@ }),
    {
        let mut additionals = self.additionals;
        proof {
            assert(record_views(additionals@.push(addentry)) =~= record_views(additionals@).push(addentry@));
        }
        additionals.push(addentry);
        PacketBuilder {
            header: self.header,
            questions: self.questions,
            answers: self.answers,
            authorities: self.authorities,
            additionals: additionals,
        }
    }

    /// Appends entries, in their order, to the additional section.
    pub fn with_addentries(self, addentries: Vec<ResourceRecord>) -> (builder: PacketBuilder)
        ensures
            builder@ == (PacketView {
                additionals: self@.additionals + record_views(addentries@),
                ..self@
            }),
    {
        let mut additionals = self.additionals;
        let mut more = addentries;
        proof {
            assert(record_views(additionals@ + more@) =~= record_views(additionals@) + record_views(more@));
        }
        additionals.append(&mut more);
        PacketBuilder {
            header: self.header,
            questions: self.questions,
            answers: self.answers,
            authorities: self.authorities,
            additionals: additionals,
        }
    }

    /// The finished message: the draft, with the four counts of the header set
    /// from the lengths of the sections, whatever they were before.
    pub fn build(self) -> (packet: Packet)
        ensures
            packet@ == counted(self@),
    {
        let qdcount: u16 = (self.questions.len() % 65536) as u16;
        let ancount: u16 = (self.answers.len() % 65536) as u16;
        let nscount: u16 = (self.authorities.len() % 65536) as u16;
        let arcount: u16 = (self.additionals.len() % 65536) as u16;
        Packet {
            header: PacketHeader {
                id: self.header.id,
                flags: self.header.flags,
                qdcount,
                ancount,
                nscount,
                arcount,
            },
            questions: self.questions,
            answers: self.answers,
            authorities: self.authorities,
            additionals: self.additionals,
        }
    }
}

/// A message that was built states, for every section of up to 65535 entries,
/// exactly the number of its entries.
pub proof fn lemma_built_counts(draft: PacketView)
    ensures
        draft.questions.len() <= 65535 ==> counted(draft).header.qdcount == draft.questions.len(),
        draft.answers.len() <= 65535 ==> counted(draft).header.ancount == draft.answers.len(),
        draft.authorities.len() <= 65535 ==> counted(draft).header.nscount
            == draft.authorities.len(),
        draft.additionals.len() <= 65535 ==> counted(draft).header.arcount
            == draft.additionals.len(),
{
}

} // verus!

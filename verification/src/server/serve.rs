//! What is made of a datagram: the ladder of recovery from malformed input,
//! and the responses that report a failure.

use super::handle_packet::{
    assembled, handle_packet, lemma_nothing_found, lemma_response_flags, respond_flags,
    response_flags,
};
use crate::protocol::answer::{answer_views, AnswerEntry, AnswerView};
use crate::protocol::packet::builder::{counted, PacketBuilder};
use crate::protocol::packet::flags::{Flags, HeaderFlags, OpCode, ResponseCode};
use crate::protocol::packet::header::PacketHeader;
use crate::protocol::packet::packet::{
    clone_questions, packet_of, question_views, Packet, PacketView,
};
use crate::protocol::packet::question::{Question, QuestionView};
use crate::protocol::wire::{read_u16, u16_at};
use vstd::prelude::*;

verus! {

/// How much of a datagram could be read.
#[derive(Debug)]
pub enum Received {
    /// The whole message.
    FullyParsed(Packet),
    /// The twelve bytes of the header, but not what follows them.
    HeaderOnlyParsed(PacketHeader),
    /// Fewer than twelve bytes, of which the first two are the transaction id.
    IdOnlyParsed(u16),
    /// Fewer than two bytes: not even a transaction id.
    Unparseable,
}

/// What a received datagram is.
pub enum ReceivedView {
    FullyParsed(PacketView),
    HeaderOnlyParsed(PacketHeader),
    IdOnlyParsed(u16),
    Unparseable,
}

impl View for Received {
    type V = ReceivedView;

    open spec fn view(&self) -> ReceivedView {
        match *self {
            Received::FullyParsed(packet) => ReceivedView::FullyParsed(packet@),
            Received::HeaderOnlyParsed(header) => ReceivedView::HeaderOnlyParsed(header),
            Received::IdOnlyParsed(id) => ReceivedView::IdOnlyParsed(id),
            Received::Unparseable => ReceivedView::Unparseable,
        }
    }
}

/// How much of a datagram can be read. Each rung is tried only where the one
/// above it failed: the whole message, then its header, then its id.
pub open spec fn received(data: Seq<u8>) -> ReceivedView {
    if data.len() < 2 {
        ReceivedView::Unparseable
    } else {
        match packet_of(data) {
            Ok(packet) => ReceivedView::FullyParsed(packet),
            Err(_) => if data.len() >= 12 {
                ReceivedView::HeaderOnlyParsed(PacketHeader::parse(data))
            } else {
                ReceivedView::IdOnlyParsed(u16_at(data, 0))
            },
        }
    }
}

/// A response that reports a failure: the id, the operation code of the
/// request's flags word, QR and RA, the given code, the given questions, and
/// nothing else.
pub open spec fn failure(
    id: u16,
    request_flags: u16,
    rcode: ResponseCode,
    questions: Seq<QuestionView>,
) -> PacketView {
    counted(
        PacketView {
            header: PacketHeader {
                id,
                flags: response_flags(request_flags, rcode, false).word(),
                qdcount: 0,
                ancount: 0,
                nscount: 0,
                arcount: 0,
            },
            questions,
            answers: Seq::empty(),
            authorities: Seq::empty(),
            additionals: Seq::empty(),
        },
    )
}

/// The response to a datagram that could not be read as a message: a
/// FormatError under the recovered id, with the recovered operation code or,
/// where only the id was recovered, as a standard query. A datagram without
/// an id gets no response, and a message that was read gets none from here.
pub open spec fn format_error(received: ReceivedView) -> Option<PacketView> {
    match received {
        ReceivedView::FullyParsed(_) => None,
        ReceivedView::HeaderOnlyParsed(header) => Some(
            failure(header.id, header.flags, ResponseCode::FormatError, Seq::empty()),
        ),
        ReceivedView::IdOnlyParsed(id) => Some(
            failure(id, 0, ResponseCode::FormatError, Seq::empty()),
        ),
        ReceivedView::Unparseable => None,
    }
}

/// The response to a request of which no question could be answered: a
/// NameError that echoes id, operation code and questions.
pub open spec fn name_error(request: PacketView) -> PacketView {
    failure(request.header.id, request.header.flags, ResponseCode::NameError, request.questions)
}

/// The response to a request, given what came of its questions: the
/// assembled response, or the NameError where none can be assembled.
pub open spec fn response_to(request: PacketView, entries: Seq<AnswerView>) -> PacketView {
    match assembled(request, entries) {
        Ok(response) => response,
        Err(_) => name_error(request),
    }
}

/// A datagram of fewer than two bytes gets no response. A datagram of two to
/// eleven bytes gets a FormatError under the id that its first two bytes
/// spell, as a response to a standard query, with empty sections.
pub proof fn lemma_short_datagram(data: Seq<u8>)
    requires
        data.len() < 12,
    ensures
        data.len() < 2 ==> received(data) == ReceivedView::Unparseable && format_error(
            received(data),
        ) is None,
        data.len() >= 2 ==> format_error(received(data)) == Some(
            failure(u16_at(data, 0), 0, ResponseCode::FormatError, Seq::empty()),
        ),
{
}

/// A response that reports a failure echoes the id, the operation code and
/// the questions that it was given, has QR and RA set and AA clear, carries
/// the response code, and holds no record.
pub proof fn lemma_failure(
    id: u16,
    request_flags: u16,
    rcode: ResponseCode,
    questions: Seq<QuestionView>,
)
    ensures
        failure(id, request_flags, rcode, questions).header.id == id,
        failure(id, request_flags, rcode, questions).questions == questions,
        (failure(id, request_flags, rcode, questions).header.flags >> 11) & 7 == (request_flags
            >> 11) & 7,
        HeaderFlags::unpack(failure(id, request_flags, rcode, questions).header.flags).0
            == OpCode::of((request_flags >> 11) & 7),
        HeaderFlags::unpack(failure(id, request_flags, rcode, questions).header.flags).2 == rcode,
        HeaderFlags::unpack(failure(id, request_flags, rcode, questions).header.flags).has(
            Flags::QR,
        ),
        HeaderFlags::unpack(failure(id, request_flags, rcode, questions).header.flags).has(
            Flags::RA,
        ),
        !HeaderFlags::unpack(failure(id, request_flags, rcode, questions).header.flags).has(
            Flags::AA,
        ),
        failure(id, request_flags, rcode, questions).answers.len() == 0,
        failure(id, request_flags, rcode, questions).authorities.len() == 0,
        failure(id, request_flags, rcode, questions).additionals.len() == 0,
{
    lemma_response_flags(request_flags, rcode, false);
}

/// A request of whose questions nothing came, neither an answer record nor
/// an authority record, is answered with the NameError that echoes it.
pub proof fn lemma_nothing_found_is_name_error(request: PacketView, entries: Seq<AnswerView>)
    requires
        forall|i: int|
            0 <= i < entries.len() ==> (#[trigger] entries[i]).resource is None
                && entries[i].authority is None,
    ensures
        response_to(request, entries) == name_error(request),
{
    lemma_nothing_found(request, entries);
}

/// Reads a datagram as far as it can be read.
pub fn receive(data: &[u8]) -> (outcome: Received)
    ensures
        outcome@ == received(data@),
{
    if data.len() < 2 {
        return Received::Unparseable;
    }
    match Packet::deserialize(data) {
        Ok(packet) => Received::FullyParsed(packet),
        Err(_) => match PacketHeader::deserialize(data) {
            Ok(header) => Received::HeaderOnlyParsed(header),
            Err(_) => Received::IdOnlyParsed(read_u16(data, 0)),
        },
    }
}

/// Builds a response that reports a failure.
pub fn failure_response(id: u16, request_flags: u16, rcode: ResponseCode, questions: Vec<
    Question,
>) -> (response: Packet)
    ensures
        response@ == failure(id, request_flags, rcode, question_views(questions@)),
{
    proof {
        assert(Seq::<QuestionView>::empty() + question_views(questions@) =~= question_views(
            questions@,
        ));
    }
    PacketBuilder::new().with_flags(respond_flags(request_flags, rcode, false)).with_id(
        id,
    ).with_qentries(questions).build()
}

/// The response to a datagram that could not be read as a message, if one
/// is owed.
pub fn format_error_response(received: &Received) -> (response: Option<Packet>)
    ensures
        match format_error(received@) {
            Some(expected) => response matches Some(built) && built@ == expected,
            None => response is None,
        },
{
    match received {
        Received::FullyParsed(_) => None,
        Received::HeaderOnlyParsed(header) => {
            let none: Vec<Question> = Vec::new();
            assert(question_views(none@) =~= Seq::empty());
            Some(failure_response(header.id, header.flags, ResponseCode::FormatError, none))
        },
        Received::IdOnlyParsed(id) => {
            let none: Vec<Question> = Vec::new();
            assert(question_views(none@) =~= Seq::empty());
            Some(failure_response(*id, 0, ResponseCode::FormatError, none))
        },
        Received::Unparseable => None,
    }
}

/// The response to a request of which no question could be answered.
pub fn name_error_response(request: &Packet) -> (response: Packet)
    ensures
        response@ == name_error(request@),
{
    failure_response(
        request.header.id,
        request.header.flags,
        ResponseCode::NameError,
        clone_questions(&request.questions),
    )
}

/// The response to a request, given what came of its questions. A request
/// that was read is always answered.
pub fn respond(request: &Packet, entries: Vec<AnswerEntry>) -> (response: Packet)
    ensures
        response@ == response_to(request@, answer_views(entries@)),
{
    match handle_packet(request, entries) {
        Ok(response) => response,
        Err(_) => name_error_response(request),
    }
}

} // verus!

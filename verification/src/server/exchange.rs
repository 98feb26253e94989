//! One request from its arrival to its response, as a machine that says what
//! to ask of the outside world next: a lookup in the local store, a query to a
//! fallback server, or the sending of the response.
//!
//! The questions are taken in order. A question that the local store may
//! answer is looked up. A question without a local answer is delegated where
//! the request desires recursion, and else gets the authority of the zone
//! above it. The delegated questions go upstream in one query, to one fallback
//! server after the other in the configured order, until a reply can be read.

use super::serve::{respond, response_to};
use crate::database::{RecordEntity, RecordEntityView, RecordQuery, RecordQueryView};
use crate::nameserver::{local_answer, local_query, query_for, served_class, try_answer};
use crate::protocol::answer::{answer_views, empty_answer, AnswerEntry, AnswerView};
use crate::protocol::packet::flags::{Flags, HeaderFlags};
use crate::protocol::packet::packet::{
    clone_questions, packet_wire, question_views, Packet, PacketView,
};
use crate::protocol::packet::question::{Question, QuestionView};
use crate::protocol::util::get_upzone;
use crate::resolver::{resolved, upstream_query, Resolver};
use crate::server::handle_packet::recursion_desired;
use vstd::prelude::*;

verus! {

/// What a request is waiting for.
#[derive(Copy, Clone, Debug, PartialEq, Eq, Structural)]
pub enum Phase {
    /// For the local store to report on the question at the cursor.
    Local,
    /// For the fallback server of the current turn to reply.
    Upstream,
    /// For nothing: the response is made.
    Finished,
}

/// What is to be done next for a request.
#[derive(Debug)]
pub enum Action {
    /// Look the query up in the local store, and report what was found.
    Lookup(RecordQuery),
    /// Send the bytes to the server, and report what came back.
    Forward { server: (String, u16), query: Vec<u8> },
    /// Send the response to the client.
    Respond(Packet),
}

/// What the outside world reports.
#[derive(Debug)]
pub enum Event {
    /// What the local store found, if anything.
    Found(Option<RecordEntity>),
    /// What the fallback server sent, if it could be reached.
    Replied(Option<Vec<u8>>),
}

/// What an action is.
pub enum ActionView {
    Lookup(RecordQueryView),
    Forward { server: (Seq<char>, u16), query: Seq<u8> },
    Respond(PacketView),
}

/// What an event is.
pub enum EventView {
    Found(Option<RecordEntityView>),
    Replied(Option<Seq<u8>>),
}

impl View for Action {
    type V = ActionView;

    open spec fn view(&self) -> ActionView {
        match *self {
            Action::Lookup(query) => ActionView::Lookup(query@),
            Action::Forward { server, query } => ActionView::Forward {
                server: (server.0@, server.1),
                query: query@,
            },
            Action::Respond(packet) => ActionView::Respond(packet@),
        }
    }
}

impl View for Event {
    type V = EventView;

    open spec fn view(&self) -> EventView {
        match *self {
            Event::Found(Some(entity)) => EventView::Found(Some(entity@)),
            Event::Found(None) => EventView::Found(None),
            Event::Replied(Some(bytes)) => EventView::Replied(Some(bytes@)),
            Event::Replied(None) => EventView::Replied(None),
        }
    }
}

/// What the state of a request is.
pub struct ExchangeView {
    pub request: PacketView,
    /// Whether the request desires recursion.
    pub recursive: bool,
    /// Whether a local store is there to be asked.
    pub local: bool,
    /// How many questions have been dealt with.
    pub cursor: int,
    /// What came of the questions so far.
    pub answers: Seq<AnswerView>,
    /// The questions that are left to the fallback servers.
    pub delegated: Seq<QuestionView>,
    /// How many fallback servers have failed.
    pub turn: int,
    /// The bytes of the query that goes upstream.
    pub query: Seq<u8>,
    pub phase: Phase,
}

/// The state in which a request arrives.
pub open spec fn arrived(request: PacketView, local: bool) -> ExchangeView {
    ExchangeView {
        request,
        recursive: HeaderFlags::unpack(request.header.flags).has(Flags::RD),
        local,
        cursor: 0,
        answers: Seq::empty(),
        delegated: Seq::empty(),
        turn: 0,
        query: Seq::empty(),
        phase: Phase::Local,
    }
}

/// The first question from `from` on that the local store is asked about, or
/// the number of questions where there is none.
pub open spec fn next_lookup(questions: Seq<QuestionView>, local: bool, from: int) -> int
    decreases questions.len() - from,
{
    if from < 0 || from >= questions.len() {
        questions.len() as int
    } else if local && served_class(questions[from]) {
        from
    } else {
        next_lookup(questions, local, from + 1)
    }
}

/// The state once the questions from the cursor up to `next` have gone
/// without a local answer: delegated where recursion is desired, and else
/// each with the empty authority of the zone above.
pub open spec fn passed_over(state: ExchangeView, next: int) -> ExchangeView {
    if state.recursive {
        ExchangeView {
            cursor: next,
            delegated: state.delegated + state.request.questions.subrange(state.cursor, next),
            ..state
        }
    } else {
        ExchangeView {
            cursor: next,
            answers: state.answers + Seq::new(
                (next - state.cursor) as nat,
                |i: int| empty_answer(),
            ),
            ..state
        }
    }
}

/// The end of a request: the response to what came of its questions.
pub open spec fn finished(state: ExchangeView) -> (ExchangeView, ActionView) {
    (
        ExchangeView { phase: Phase::Finished, ..state },
        ActionView::Respond(response_to(state.request, state.answers)),
    )
}

/// The start of the delegation: the query for the delegated questions goes to
/// the first fallback server. Where there is no fallback server, or the query
/// cannot be encoded, the request ends with what it has.
pub open spec fn delegation(state: ExchangeView, servers: Seq<(Seq<char>, u16)>) -> (
    ExchangeView,
    ActionView,
) {
    match packet_wire(upstream_query(state.delegated)) {
        Ok(query) => if servers.len() > 0 {
            (
                ExchangeView { phase: Phase::Upstream, turn: 0, query, ..state },
                ActionView::Forward { server: servers[0], query },
            )
        } else {
            finished(state)
        },
        Err(_) => finished(state),
    }
}

/// What follows once the question at the cursor is due: the questions that
/// the local store is not asked about are passed over; the first one that it
/// is asked about is looked up; after the last question, the delegated ones
/// go upstream, where recursion is desired and either one was delegated or no
/// local store is there, and else the request ends.
pub open spec fn settled(state: ExchangeView, servers: Seq<(Seq<char>, u16)>) -> (
    ExchangeView,
    ActionView,
) {
    let next = next_lookup(state.request.questions, state.local, state.cursor);
    let passed = passed_over(state, next);
    if next < state.request.questions.len() {
        (passed, ActionView::Lookup(query_for(state.request.questions[next])))
    } else if passed.recursive && (passed.delegated.len() > 0 || !passed.local) {
        delegation(passed, servers)
    } else {
        finished(passed)
    }
}

/// What follows the report of the local store on the question at the cursor.
pub open spec fn after_found(
    state: ExchangeView,
    servers: Seq<(Seq<char>, u16)>,
    found: Option<RecordEntityView>,
) -> (ExchangeView, ActionView) {
    match local_answer(state.request.questions[state.cursor], found) {
        Some(entry) => settled(
            ExchangeView {
                cursor: state.cursor + 1,
                answers: state.answers.push(entry),
                ..state
            },
            servers,
        ),
        None => settled(passed_over(state, state.cursor + 1), servers),
    }
}

/// What follows the reply of the fallback server of the current turn: a
/// reply that can be read ends the request with its entries added; any other
/// outcome passes the same query to the next server, and after the last
/// server the request ends with what it has.
pub open spec fn after_reply(
    state: ExchangeView,
    servers: Seq<(Seq<char>, u16)>,
    reply: Option<Seq<u8>>,
) -> (ExchangeView, ActionView) {
    match entries_in(reply) {
        Some(entries) => finished(ExchangeView { answers: state.answers + entries, ..state }),
        None => if state.turn + 1 < servers.len() {
            (
                ExchangeView { turn: state.turn + 1, ..state },
                ActionView::Forward { server: servers[state.turn + 1], query: state.query },
            )
        } else {
            finished(state)
        },
    }
}

/// The entries that a reply resolves to, if it came and can be read.
pub open spec fn entries_in(reply: Option<Seq<u8>>) -> Option<Seq<AnswerView>> {
    match reply {
        Some(bytes) => resolved(bytes),
        None => None,
    }
}

/// The local store's report that an event brings, if it brings one.
pub open spec fn found_in(event: EventView) -> Option<RecordEntityView> {
    match event {
        EventView::Found(found) => found,
        EventView::Replied(_) => None,
    }
}

/// The fallback server's reply that an event brings, if it brings one.
pub open spec fn reply_in(event: EventView) -> Option<Seq<u8>> {
    match event {
        EventView::Found(_) => None,
        EventView::Replied(reply) => reply,
    }
}

/// The state and the action that follow an event. An event of the kind that
/// is not awaited counts as a report of nothing. A request that has ended
/// stays ended, with the same response.
pub open spec fn step(state: ExchangeView, servers: Seq<(Seq<char>, u16)>, event: EventView) -> (
    ExchangeView,
    ActionView,
) {
    match state.phase {
        Phase::Local => after_found(state, servers, found_in(event)),
        Phase::Upstream => after_reply(state, servers, reply_in(event)),
        Phase::Finished => finished(state),
    }
}

/// Whether a state awaits what can come: in the local phase a question is
/// at the cursor, and in the upstream phase a fallback server has the turn.
pub open spec fn awaiting(state: ExchangeView, servers: Seq<(Seq<char>, u16)>) -> bool {
    match state.phase {
        Phase::Local => 0 <= state.cursor < state.request.questions.len(),
        Phase::Upstream => 0 <= state.turn < servers.len(),
        Phase::Finished => true,
    }
}

/// How many events a request can still take in before it has its response,
/// at most: one for each question from the cursor on and one for each
/// fallback server that has not failed.
pub open spec fn steps_left(state: ExchangeView, servers: Seq<(Seq<char>, u16)>) -> int {
    match state.phase {
        Phase::Local => state.request.questions.len() - state.cursor + servers.len(),
        Phase::Upstream => servers.len() - state.turn,
        Phase::Finished => 0,
    }
}

/// Whether an action is the one that a state asks for: a lookup in the local
/// phase, a query to the fallback server whose turn it is in the upstream
/// phase, and the response at the end.
pub open spec fn asked_by(
    action: ActionView,
    state: ExchangeView,
    servers: Seq<(Seq<char>, u16)>,
) -> bool {
    match state.phase {
        Phase::Local => action == ActionView::Lookup(
            query_for(state.request.questions[state.cursor]),
        ),
        Phase::Upstream => action == (ActionView::Forward {
            server: servers[state.turn],
            query: state.query,
        }),
        Phase::Finished => action == ActionView::Respond(
            response_to(state.request, state.answers),
        ),
    }
}

/// The next question to look up is not before the cursor, and is a question
/// that the local store serves.
pub proof fn lemma_next_lookup(questions: Seq<QuestionView>, local: bool, from: int)
    requires
        0 <= from <= questions.len(),
    ensures
        from <= next_lookup(questions, local, from) <= questions.len(),
        next_lookup(questions, local, from) < questions.len() ==> local && served_class(
            questions[next_lookup(questions, local, from)],
        ),
    decreases questions.len() - from,
{
    if from < questions.len() && !(local && served_class(questions[from])) {
        lemma_next_lookup(questions, local, from + 1);
    }
}

/// Going on from a cursor leads to a state that awaits what can come, that
/// is asked for by the action, and that is no further from the response than
/// the questions from the cursor on and the fallback servers allow.
pub proof fn lemma_settled(state: ExchangeView, servers: Seq<(Seq<char>, u16)>)
    requires
        state.phase == Phase::Local,
        0 <= state.cursor <= state.request.questions.len(),
    ensures
        awaiting(settled(state, servers).0, servers),
        asked_by(settled(state, servers).1, settled(state, servers).0, servers),
        steps_left(settled(state, servers).0, servers) <= state.request.questions.len()
            - state.cursor + servers.len(),
        settled(state, servers).0.request == state.request,
{
    lemma_next_lookup(state.request.questions, state.local, state.cursor);
}

/// Every request that arrives is taken up in a state that awaits what can
/// come, with the action that this state asks for.
pub proof fn lemma_begin(request: PacketView, local: bool, servers: Seq<(Seq<char>, u16)>)
    ensures
        awaiting(settled(arrived(request, local), servers).0, servers),
        asked_by(
            settled(arrived(request, local), servers).1,
            settled(arrived(request, local), servers).0,
            servers,
        ),
        settled(arrived(request, local), servers).0.request == request,
{
    lemma_settled(arrived(request, local), servers);
}

/// Every event brings a request that has not ended nearer to its response:
/// the state that follows awaits what can come, is asked for by the action,
/// and has fewer steps left. So every request that was read gets its
/// response, after at most as many events as it has questions and fallback
/// servers. From one fallback server the query goes to the next in the
/// configured order, and to none twice.
pub proof fn lemma_step(state: ExchangeView, servers: Seq<(Seq<char>, u16)>, event: EventView)
    requires
        awaiting(state, servers),
    ensures
        awaiting(step(state, servers, event).0, servers),
        asked_by(step(state, servers, event).1, step(state, servers, event).0, servers),
        step(state, servers, event).0.request == state.request,
        state.phase != Phase::Finished ==> steps_left(step(state, servers, event).0, servers)
            < steps_left(state, servers),
        state.phase == Phase::Upstream && step(state, servers, event).0.phase == Phase::Upstream
            ==> step(state, servers, event).0.turn == state.turn + 1 && step(
            state,
            servers,
            event,
        ).0.query == state.query,
        state.phase == Phase::Upstream ==> step(state, servers, event).0.phase != Phase::Local,
        state.phase == Phase::Finished ==> step(state, servers, event).0 == state,
{
    match state.phase {
        Phase::Local => {
            let question = state.request.questions[state.cursor];
            match local_answer(question, found_in(event)) {
                Some(entry) => {
                    lemma_settled(
                        ExchangeView {
                            cursor: state.cursor + 1,
                            answers: state.answers.push(entry),
                            ..state
                        },
                        servers,
                    );
                },
                None => {
                    lemma_settled(passed_over(state, state.cursor + 1), servers);
                },
            }
        },
        Phase::Upstream => {},
        Phase::Finished => {},
    }
}

/// A copy of a list of answer entries.
pub fn clone_answers(entries: &Vec<AnswerEntry>) -> (copy: Vec<AnswerEntry>)
    ensures
        answer_views(copy@) == answer_views(entries@),
{
    let mut copy: Vec<AnswerEntry> = Vec::new();
    let mut i: usize = 0;
    while i < entries.len()
        invariant
            i <= entries.len(),
            copy@.len() == i,
            forall|k: int| 0 <= k < i ==> copy@[k]@ == entries@[k]@,
        decreases entries.len() - i,
    {
        let entry = entries[i].clone();
        copy.push(entry);
        i += 1;
    }
    assert(answer_views(copy@) =~= answer_views(entries@));
    copy
}

/// A copy of bytes.
pub fn clone_bytes(bytes: &Vec<u8>) -> (copy: Vec<u8>)
    ensures
        copy@ == bytes@,
{
    bytes.clone()
}

/// The state of one request.
#[derive(Debug)]
pub struct Exchange {
    request: Packet,
    recursive: bool,
    local: bool,
    cursor: usize,
    answers: Vec<AnswerEntry>,
    delegated: Vec<Question>,
    turn: usize,
    query: Vec<u8>,
    phase: Phase,
}

impl View for Exchange {
    type V = ExchangeView;

    closed spec fn view(&self) -> ExchangeView {
        ExchangeView {
            request: self.request@,
            recursive: self.recursive,
            local: self.local,
            cursor: self.cursor as int,
            answers: answer_views(self.answers@),
            delegated: question_views(self.delegated@),
            turn: self.turn as int,
            query: self.query@,
            phase: self.phase,
        }
    }
}

impl Exchange {
    #[verifier::type_invariant]
    spec fn well_formed(self) -> bool {
        self.phase == Phase::Local ==> self.cursor < self.request.questions@.len() && self.turn
            == 0 && self.query@.len() == 0
    }

    /// Ends a request.
    fn finish(
        request: Packet,
        recursive: bool,
        local: bool,
        cursor: usize,
        answers: Vec<AnswerEntry>,
        delegated: Vec<Question>,
        turn: usize,
        query: Vec<u8>,
    ) -> (next: (Exchange, Action))
        ensures
            (next.0@, next.1@) == finished(
                ExchangeView {
                    request: request@,
                    recursive,
                    local,
                    cursor: cursor as int,
                    answers: answer_views(answers@),
                    delegated: question_views(delegated@),
                    turn: turn as int,
                    query: query@,
                    phase: Phase::Finished,
                },
            ),
    {
        let response = respond(&request, clone_answers(&answers));
        (
            Exchange {
                request,
                recursive,
                local,
                cursor,
                answers,
                delegated,
                turn,
                query,
                phase: Phase::Finished,
            },
            Action::Respond(response),
        )
    }

    /// Goes on from the question at the cursor.
    fn settle(
        request: Packet,
        recursive: bool,
        local: bool,
        cursor: usize,
        answers: Vec<AnswerEntry>,
        delegated: Vec<Question>,
        resolver: &Resolver,
    ) -> (next: (Exchange, Action))
        requires
            cursor <= request.questions@.len(),
        ensures
            (next.0@, next.1@) == settled(
                ExchangeView {
                    request: request@,
                    recursive,
                    local,
                    cursor: cursor as int,
                    answers: answer_views(answers@),
                    delegated: question_views(delegated@),
                    turn: 0,
                    query: Seq::empty(),
                    phase: Phase::Local,
                },
                resolver@,
            ),
    {
        let ghost start = ExchangeView {
            request: request@,
            recursive,
            local,
            cursor: cursor as int,
            answers: answer_views(answers@),
            delegated: question_views(delegated@),
            turn: 0,
            query: Seq::empty(),
            phase: Phase::Local,
        };
        let ghost questions = request@.questions;
        let mut answers = answers;
        let mut delegated = delegated;
        let mut at: usize = cursor;
        proof {
            assert(questions.subrange(cursor as int, cursor as int) =~= Seq::empty());
            assert(start.delegated + Seq::<QuestionView>::empty() =~= start.delegated);
            assert(start.answers + Seq::new(0nat, |i: int| empty_answer()) =~= start.answers);
        }
        let mut lookup: Option<RecordQuery> = None;
        while at < request.questions.len() && lookup.is_none()
            invariant
                cursor <= at <= request.questions@.len(),
                questions == request@.questions,
                start.request == request@,
                start.cursor == cursor,
                start.recursive == recursive,
                start.local == local,
                next_lookup(questions, local, cursor as int) == next_lookup(
                    questions,
                    local,
                    at as int,
                ),
                answer_views(answers@) == passed_over(start, at as int).answers,
                question_views(delegated@) == passed_over(start, at as int).delegated,
                match lookup {
                    Some(query) => at < questions.len() && local && served_class(
                        questions[at as int],
                    ) && query@ == query_for(questions[at as int]),
                    None => true,
                },
            decreases
                    request.questions@.len() - at + if lookup is None {
                        1int
                    } else {
                        0int
                    },
        {
            let question = &request.questions[at];
            assert(questions[at as int] == question@);
            if local {
                lookup = local_query(question);
            }
            if lookup.is_none() {
                if recursive {
                    let copy = question.clone();
                    proof {
                        assert(question_views(delegated@.push(copy)) =~= question_views(
                            delegated@,
                        ).push(question@));
                        assert(start.delegated + questions.subrange(cursor as int, at + 1) =~= (
                        start.delegated + questions.subrange(cursor as int, at as int)).push(
                            question@,
                        ));
                    }
                    delegated.push(copy);
                } else {
                    let entry = resolver.get_zoneauthority(get_upzone(question.name()));
                    proof {
                        assert(answer_views(answers@.push(entry)) =~= answer_views(answers@).push(
                            entry@,
                        ));
                        assert(start.answers + Seq::new(
                            (at + 1 - cursor) as nat,
                            |i: int| empty_answer(),
                        ) =~= (start.answers + Seq::new(
                            (at - cursor) as nat,
                            |i: int| empty_answer(),
                        )).push(empty_answer()));
                    }
                    answers.push(entry);
                }
                at += 1;
            }
        }
        match lookup {
            Some(query) => {
                let empty: Vec<u8> = Vec::new();
                assert(empty@ =~= Seq::<u8>::empty());
                assert(next_lookup(questions, local, at as int) == at);
                return (
                    Exchange {
                        request,
                        recursive,
                        local,
                        cursor: at,
                        answers,
                        delegated,
                        turn: 0,
                        query: empty,
                        phase: Phase::Local,
                    },
                    Action::Lookup(query),
                );
            },
            None => {},
        }
        if recursive && (delegated.len() > 0 || !local) {
            let query = Resolver::recursive_query(clone_questions(&delegated));
            match query.serialize() {
                Ok(bytes) => match resolver.fallback_server(0) {
                    Some(server) => {
                        let sent = clone_bytes(&bytes);
                        (
                            Exchange {
                                request,
                                recursive,
                                local,
                                cursor: at,
                                answers,
                                delegated,
                                turn: 0,
                                query: bytes,
                                phase: Phase::Upstream,
                            },
                            Action::Forward { server, query: sent },
                        )
                    },
                    None => Exchange::finish(
                        request,
                        recursive,
                        local,
                        at,
                        answers,
                        delegated,
                        0,
                        Vec::new(),
                    ),
                },
                Err(_) => Exchange::finish(
                    request,
                    recursive,
                    local,
                    at,
                    answers,
                    delegated,
                    0,
                    Vec::new(),
                ),
            }
        } else {
            Exchange::finish(request, recursive, local, at, answers, delegated, 0, Vec::new())
        }
    }

    /// Takes a request up: the state it starts in, and what to do first.
    /// `local` says whether a local store is there to be asked.
    pub fn begin(request: Packet, resolver: &Resolver, local: bool) -> (next: (Exchange, Action))
        ensures
            (next.0@, next.1@) == settled(arrived(request@, local), resolver@),
    {
        let recursive: bool = recursion_desired(&request);
        let answers: Vec<AnswerEntry> = Vec::new();
        let delegated: Vec<Question> = Vec::new();
        proof {
            assert(answer_views(answers@) =~= Seq::empty());
            assert(question_views(delegated@) =~= Seq::empty());
        }
        Exchange::settle(request, recursive, local, 0, answers, delegated, resolver)
    }

    /// Takes in what the local store found for the question at the cursor.
    fn found(self, resolver: &Resolver, found: Option<RecordEntity>) -> (next: (Exchange, Action))
        requires
            self@.phase == Phase::Local,
        ensures
            (next.0@, next.1@) == after_found(
                self@,
                resolver@,
                match found {
                    Some(entity) => Some(entity@),
                    None => None,
                },
            ),
    {
        proof {
            use_type_invariant(&self);
        }
        let ghost state = self@;
        let request = self.request;
        let mut answers = self.answers;
        let mut delegated = self.delegated;
        let cursor: usize = self.cursor;
        let count: usize = request.questions.len();
        assert(cursor < count);
        assert(state.query =~= Seq::<u8>::empty());
        let question = &request.questions[cursor];
        assert(state.request.questions[cursor as int] == question@);
        match try_answer(question, found) {
            Some(entry) => {
                proof {
                    assert(answer_views(answers@.push(entry)) =~= answer_views(answers@).push(
                        entry@,
                    ));
                }
                answers.push(entry);
            },
            None => {
                if self.recursive {
                    let copy = question.clone();
                    proof {
                        assert(question_views(delegated@.push(copy)) =~= question_views(
                            delegated@,
                        ).push(question@));
                        assert(state.request.questions.subrange(cursor as int, cursor + 1)
                            =~= seq![question@]);
                        assert(state.delegated + seq![question@] =~= state.delegated.push(
                            question@,
                        ));
                    }
                    delegated.push(copy);
                } else {
                    let entry = resolver.get_zoneauthority(get_upzone(question.name()));
                    proof {
                        assert(answer_views(answers@.push(entry)) =~= answer_views(answers@).push(
                            entry@,
                        ));
                        assert(state.answers + Seq::new(1nat, |i: int| empty_answer())
                            =~= state.answers.push(empty_answer()));
                    }
                    answers.push(entry);
                }
            },
        }
        Exchange::settle(
            request,
            self.recursive,
            self.local,
            cursor + 1,
            answers,
            delegated,
            resolver,
        )
    }

    /// Ends the request with the entries that came from upstream.
    fn conclude(self, found: Vec<AnswerEntry>) -> (next: (Exchange, Action))
        ensures
            (next.0@, next.1@) == finished(
                ExchangeView { answers: self@.answers + answer_views(found@), ..self@ },
            ),
    {
        let mut answers = self.answers;
        let mut found = found;
        proof {
            assert(answer_views(answers@ + found@) =~= answer_views(answers@) + answer_views(
                found@,
            ));
        }
        answers.append(&mut found);
        Exchange::finish(
            self.request,
            self.recursive,
            self.local,
            self.cursor,
            answers,
            self.delegated,
            self.turn,
            self.query,
        )
    }

    /// Passes the query on to the next fallback server, or ends the request
    /// after the last.
    fn pass_on(self, resolver: &Resolver) -> (next: (Exchange, Action))
        requires
            self@.phase == Phase::Upstream,
        ensures
            (next.0@, next.1@) == after_reply(self@, resolver@, None),
    {
        let count: usize = resolver.fallback_count();
        let server: Option<(String, u16)> = if self.turn < usize::MAX && self.turn + 1 < count {
            resolver.fallback_server(self.turn + 1)
        } else {
            None
        };
        match server {
            Some(server) => {
                let sent = clone_bytes(&self.query);
                (
                    Exchange {
                        request: self.request,
                        recursive: self.recursive,
                        local: self.local,
                        cursor: self.cursor,
                        answers: self.answers,
                        delegated: self.delegated,
                        turn: self.turn + 1,
                        query: self.query,
                        phase: Phase::Upstream,
                    },
                    Action::Forward { server, query: sent },
                )
            },
            None => Exchange::finish(
                self.request,
                self.recursive,
                self.local,
                self.cursor,
                self.answers,
                self.delegated,
                self.turn,
                self.query,
            ),
        }
    }

    /// Takes in what the fallback server of the current turn sent.
    fn replied(self, resolver: &Resolver, reply: Option<Vec<u8>>) -> (next: (Exchange, Action))
        requires
            self@.phase == Phase::Upstream,
        ensures
            (next.0@, next.1@) == after_reply(
                self@,
                resolver@,
                match reply {
                    Some(bytes) => Some(bytes@),
                    None => None,
                },
            ),
    {
        let entries: Option<Vec<AnswerEntry>> = match reply {
            Some(bytes) => Resolver::resolve_reply(bytes.as_slice()),
            None => None,
        };
        match entries {
            Some(found) => self.conclude(found),
            None => self.pass_on(resolver),
        }
    }

    /// Takes in what the outside world reports: the state that follows, and
    /// what to do next.
    pub fn advance(self, resolver: &Resolver, event: Event) -> (next: (Exchange, Action))
        ensures
            (next.0@, next.1@) == step(self@, resolver@, event@),
    {
        match self.phase {
            Phase::Local => {
                let found: Option<RecordEntity> = match event {
                    Event::Found(found) => found,
                    Event::Replied(_) => None,
                };
                self.found(resolver, found)
            },
            Phase::Upstream => {
                let reply: Option<Vec<u8>> = match event {
                    Event::Found(_) => None,
                    Event::Replied(reply) => reply,
                };
                self.replied(resolver, reply)
            },
            Phase::Finished => Exchange::finish(
                self.request,
                self.recursive,
                self.local,
                self.cursor,
                self.answers,
                self.delegated,
                self.turn,
                self.query,
            ),
        }
    }

    /// What the request is waiting for.
    pub fn phase(&self) -> (phase: Phase)
        ensures
            phase == self@.phase,
    {
        self.phase
    }
}

} // verus!

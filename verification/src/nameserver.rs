//! The local-first policy: which questions the local store is asked about,
//! and what a stored record answers.

use crate::database::{record_of, RecordEntity, RecordEntityView, RecordQuery, RecordQueryView};
use crate::protocol::answer::{AnswerEntry, AnswerView};
use crate::protocol::packet::question::{Question, QuestionView};
use crate::protocol::packet::record_type::RecordType;
use crate::protocol::packet::resource_record::RecordView;
use vstd::prelude::*;

verus! {

/// The class IN.
pub const CLASS_IN: u16 = 1;

/// The class ANY.
pub const CLASS_ANY: u16 = 255;

/// Whether a question is of a class that the local store serves: IN or ANY.
pub open spec fn served_class(question: QuestionView) -> bool {
    question.qclass == CLASS_IN || question.qclass == CLASS_ANY
}

/// The query that the store is asked for a question: its name, exactly, and
/// the type that its type number stands for.
pub open spec fn query_for(question: QuestionView) -> RecordQueryView {
    RecordQueryView {
        valid: true,
        domain_name: Some(question.name),
        record_type: Some(RecordType::of(question.qtype)),
    }
}

/// The answer from a stored record: the record under the name of the
/// question, given with authority.
pub open spec fn answer_from(question: QuestionView, entity: RecordEntityView) -> AnswerView {
    AnswerView {
        resource: Some(RecordView { name: question.name, ..record_of(entity) }),
        authoritive: true,
        authority: None,
        additional: Seq::empty(),
    }
}

/// The local answer to a question, given what the store found: none for a
/// class other than IN and ANY, none where the store found nothing.
pub open spec fn local_answer(question: QuestionView, found: Option<RecordEntityView>) -> Option<
    AnswerView,
> {
    if !served_class(question) {
        None
    } else {
        match found {
            Some(entity) => Some(answer_from(question, entity)),
            None => None,
        }
    }
}

/// The query to put to the local store for a question, or nothing where the
/// class is neither IN nor ANY: the store is then not consulted.
pub fn local_query(question: &Question) -> (query: Option<RecordQuery>)
    ensures
        match query {
            Some(query) => served_class(question@) && query@ == query_for(question@),
            None => !served_class(question@),
        },
{
    if question.qclass() != CLASS_IN && question.qclass() != CLASS_ANY {
        return None;
    }
    Some(
        RecordQuery::default().with_domain_name(question.name()).with_record_type(
            question.qtype(),
        ),
    )
}

/// Answers a question from what the local store found for it.
pub fn try_answer(question: &Question, found: Option<RecordEntity>) -> (answer: Option<AnswerEntry>)
    ensures
        match local_answer(question@, match found {
            Some(entity) => Some(entity@),
            None => None,
        }) {
            Some(expected) => answer matches Some(entry) && entry@ == expected,
            None => answer is None,
        },
{
    if question.qclass() != CLASS_IN && question.qclass() != CLASS_ANY {
        return None;
    }
    match found {
        Some(entity) => {
            let entry = AnswerEntry {
                authoritive: true,
                resource: Some(entity.serialize().with_name(question.name())),
                authority: None,
                additional: Vec::new(),
            };
            assert(entry@.additional =~= Seq::empty());
            Some(entry)
        },
        None => None,
    }
}

} // verus!

//! How one question was answered.

use super::packet::packet::{clone_records, record_views};
use super::packet::resource_record::{RecordView, ResourceRecord};
use vstd::prelude::*;

verus! {

/// What an answer entry is.
pub struct AnswerView {
    pub resource: Option<RecordView>,
    pub authoritive: bool,
    pub authority: Option<RecordView>,
    pub additional: Seq<RecordView>,
}

/// What an optional resource record is.
pub open spec fn optional_view(record: Option<ResourceRecord>) -> Option<RecordView> {
    match record {
        Some(record) => Some(record@),
        None => None,
    }
}

/// What came of one question: possibly an answer record, whether this server
/// answers with authority, possibly a record of the authority to ask instead,
/// and records that may save the client a query.
#[derive(Debug)]
pub struct AnswerEntry {
    pub resource: Option<ResourceRecord>,
    pub authoritive: bool,
    pub authority: Option<ResourceRecord>,
    pub additional: Vec<ResourceRecord>,
}

impl View for AnswerEntry {
    type V = AnswerView;

    open spec fn view(&self) -> AnswerView {
        AnswerView {
            resource: optional_view(self.resource),
            authoritive: self.authoritive,
            authority: optional_view(self.authority),
            additional: record_views(self.additional@),
        }
    }
}

/// The entry that holds nothing and claims no authority.
pub open spec fn empty_answer() -> AnswerView {
    AnswerView { resource: None, authoritive: false, authority: None, additional: Seq::empty() }
}

impl Default for AnswerEntry {
    fn default() -> (entry: AnswerEntry)
        ensures
            entry@ == empty_answer(),
    {
        let entry = AnswerEntry {
            resource: None,
            authoritive: false,
            authority: None,
            additional: Vec::new(),
        };
        assert(entry@.additional =~= Seq::empty());
        entry
    }
}

/// A copy of an optional resource record.
pub fn clone_optional(record: &Option<ResourceRecord>) -> (copy: Option<ResourceRecord>)
    ensures
        optional_view(copy) == optional_view(*record),
{
    match record {
        Some(record) => Some(record.clone()),
        None => None,
    }
}

impl Clone for AnswerEntry {
    fn clone(&self) -> (copy: AnswerEntry)
        ensures
            copy@ == self@,
    {
        AnswerEntry {
            resource: clone_optional(&self.resource),
            authoritive: self.authoritive,
            authority: clone_optional(&self.authority),
            additional: clone_records(&self.additional),
        }
    }
}

/// What a list of answer entries is.
pub open spec fn answer_views(entries: Seq<AnswerEntry>) -> Seq<AnswerView> {
    entries.map_values(|entry: AnswerEntry| entry@)
}

} // verus!

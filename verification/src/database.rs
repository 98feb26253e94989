//! What is asked of the local record store, and what it holds.
//!
//! The store itself is outside this library. Here are the query that selects a
//! record, the record as the store hands it out, and the text of the two
//! statements that a store speaking SQL is given, with `?` wherever a value is
//! bound.

use crate::protocol::packet::record_type::RecordType;
use crate::protocol::packet::resource_record::{RecordView, ResourceRecord};
use vstd::prelude::*;
use vstd::string::StringExecFns;

verus! {

/// What a query for a record is.
pub struct RecordQueryView {
    pub valid: bool,
    pub domain_name: Option<Seq<char>>,
    pub record_type: Option<RecordType>,
}

/// A query for one record of the local store. It is valid once a name or a
/// type has been set.
#[derive(Debug)]
pub struct RecordQuery {
    valid: bool,
    domain_name: Option<String>,
    record_type: Option<RecordType>,
}

impl View for RecordQuery {
    type V = RecordQueryView;

    closed spec fn view(&self) -> RecordQueryView {
        RecordQueryView {
            valid: self.valid,
            domain_name: match self.domain_name {
                Some(name) => Some(name@),
                None => None,
            },
            record_type: self.record_type,
        }
    }
}

/// The text of the statement that selects the record a query asks for.
pub open spec fn select_text(query: RecordQueryView, table: Seq<char>) -> Seq<char> {
    "SELECT * FROM "@ + table + " WHERE 1=1"@ + (if query.domain_name is Some {
        " AND domain_name = ?"@
    } else {
        Seq::<char>::empty()
    }) + (if query.record_type is Some {
        " AND record_type = ?"@
    } else {
        Seq::<char>::empty()
    }) + " LIMIT 1"@
}

/// The text of the statement that stores a record.
pub open spec fn insert_text(table: Seq<char>) -> Seq<char> {
    "INSERT INTO "@ + table
        + "(domain_name, record_type, record_value, ttl, priority) VALUES (?, ?, ?, ?, ?);"@
}

impl RecordQuery {
    pub fn with_domain_name(self, domain_name: String) -> (query: RecordQuery)
        ensures
            query@ == (RecordQueryView {
                valid: true,
                domain_name: Some(domain_name@),
                ..self@
            }),
    {
        RecordQuery { valid: true, domain_name: Some(domain_name), record_type: self.record_type }
    }

    pub fn with_record_type(self, record_type: RecordType) -> (query: RecordQuery)
        ensures
            query@ == (RecordQueryView { valid: true, record_type: Some(record_type), ..self@ }),
    {
        RecordQuery { valid: true, domain_name: self.domain_name, record_type: Some(record_type) }
    }

    pub fn domain_name(&self) -> (domain_name: Option<String>)
        ensures
            match domain_name {
                Some(name) => self@.domain_name == Some(name@),
                None => self@.domain_name is None,
            },
    {
        match &self.domain_name {
            Some(name) => Some(name.clone()),
            None => None,
        }
    }

    pub fn record_type(&self) -> (record_type: Option<RecordType>)
        ensures
            record_type == self@.record_type,
    {
        self.record_type
    }

    /// Whether a name or a type has been set.
    pub fn is_valid(&self) -> (valid: bool)
        ensures
            valid == self@.valid,
    {
        self.valid
    }

    /// The statement that selects the record asked for, or nothing for a query
    /// that is not valid. The name, where one is set, is bound first, and the
    /// number of the type, where one is set, after it.
    pub fn select_statement(&self, table: &str) -> (statement: Option<String>)
        ensures
            match statement {
                Some(text) => self@.valid && text@ == select_text(self@, table@),
                None => !self@.valid,
            },
    {
        if !self.valid {
            return None;
        }
        let mut text = "SELECT * FROM ".to_string();
        text.append(table);
        text.append(" WHERE 1=1");
        if self.domain_name.is_some() {
            text.append(" AND domain_name = ?");
        }
        assert("SELECT * FROM "@ + table@ + " WHERE 1=1"@ + Seq::<char>::empty() =~= "SELECT * FROM "@
            + table@ + " WHERE 1=1"@);
        if self.record_type.is_some() {
            text.append(" AND record_type = ?");
        }
        let ghost before = text@;
        assert(before + Seq::<char>::empty() =~= before);
        text.append(" LIMIT 1");
        Some(text)
    }
}

impl Default for RecordQuery {
    fn default() -> (query: RecordQuery)
        ensures
            query@ == (RecordQueryView { valid: false, domain_name: None, record_type: None }),
    {
        RecordQuery { valid: false, domain_name: None, record_type: None }
    }
}

/// What a stored record is.
pub struct RecordEntityView {
    pub id: u64,
    pub domain_name: Seq<char>,
    pub record_type: u16,
    pub record_value: Seq<u8>,
    pub ttl: u32,
    pub priority: Option<u32>,
    pub is_active: bool,
}

/// A record as the local store holds it.
#[derive(Debug)]
pub struct RecordEntity {
    id: u64,
    domain_name: String,
    record_type: u16,
    record_value: Vec<u8>,
    ttl: u32,
    priority: Option<u32>,
    is_active: bool,
}

impl View for RecordEntity {
    type V = RecordEntityView;

    closed spec fn view(&self) -> RecordEntityView {
        RecordEntityView {
            id: self.id,
            domain_name: self.domain_name@,
            record_type: self.record_type,
            record_value: self.record_value@,
            ttl: self.ttl,
            priority: self.priority,
            is_active: self.is_active,
        }
    }
}

/// The resource record that a stored record answers with: its data and its
/// time to live, the type that the stored number stands for, the class IN,
/// and no name yet.
pub open spec fn record_of(entity: RecordEntityView) -> RecordView {
    RecordView {
        name: Seq::<char>::empty(),
        rtype: RecordType::of(entity.record_type).number(),
        rclass: 1,
        ttl: entity.ttl,
        rdata: entity.record_value,
    }
}

impl RecordEntity {
    /// A record with every field given, as a store hands it out.
    pub fn from_parts(
        id: u64,
        domain_name: String,
        record_type: u16,
        record_value: Vec<u8>,
        ttl: u32,
        priority: Option<u32>,
        is_active: bool,
    ) -> (entity: RecordEntity)
        ensures
            entity@ == (RecordEntityView {
                id,
                domain_name: domain_name@,
                record_type,
                record_value: record_value@,
                ttl,
                priority,
                is_active,
            }),
    {
        RecordEntity { id, domain_name, record_type, record_value, ttl, priority, is_active }
    }

    /// The resource record that the stored record answers with.
    pub fn serialize(self) -> (record: ResourceRecord)
        ensures
            record@ == record_of(self@),
    {
        ResourceRecord::default().with_rtype(RecordType::from(self.record_type)).with_rdata(
            self.record_value,
        ).with_rclass(1).with_ttl(self.ttl)
    }

    pub fn with_domain_name(self, domain_name: String) -> (entity: RecordEntity)
        ensures
            entity@ == (RecordEntityView { domain_name: domain_name@, ..self@ }),
    {
        RecordEntity {
            id: self.id,
            domain_name,
            record_type: self.record_type,
            record_value: self.record_value,
            ttl: self.ttl,
            priority: self.priority,
            is_active: self.is_active,
        }
    }

    pub fn with_record_type(self, record_type: RecordType) -> (entity: RecordEntity)
        ensures
            entity@ == (RecordEntityView { record_type: record_type.number(), ..self@ }),
    {
        RecordEntity {
            id: self.id,
            domain_name: self.domain_name,
            record_type: record_type.code(),
            record_value: self.record_value,
            ttl: self.ttl,
            priority: self.priority,
            is_active: self.is_active,
        }
    }

    pub fn with_record_value(self, record_value: Vec<u8>) -> (entity: RecordEntity)
        ensures
            entity@ == (RecordEntityView { record_value: record_value@, ..self@ }),
    {
        RecordEntity {
            id: self.id,
            domain_name: self.domain_name,
            record_type: self.record_type,
            record_value,
            ttl: self.ttl,
            priority: self.priority,
            is_active: self.is_active,
        }
    }

    pub fn with_ttl(self, ttl: u32) -> (entity: RecordEntity)
        ensures
            entity@ == (RecordEntityView { ttl, ..self@ }),
    {
        RecordEntity {
            id: self.id,
            domain_name: self.domain_name,
            record_type: self.record_type,
            record_value: self.record_value,
            ttl,
            priority: self.priority,
            is_active: self.is_active,
        }
    }

    pub fn with_priority(self, priority: u32) -> (entity: RecordEntity)
        ensures
            entity@ == (RecordEntityView { priority: Some(priority), ..self@ }),
    {
        RecordEntity {
            id: self.id,
            domain_name: self.domain_name,
            record_type: self.record_type,
            record_value: self.record_value,
            ttl: self.ttl,
            priority: Some(priority),
            is_active: self.is_active,
        }
    }

    pub fn id(&self) -> (id: u64)
        ensures
            id == self@.id,
    {
        self.id
    }

    pub fn domain_name(&self) -> (domain_name: String)
        ensures
            domain_name@ == self@.domain_name,
    {
        self.domain_name.clone()
    }

    pub fn record_type(&self) -> (record_type: u16)
        ensures
            record_type == self@.record_type,
    {
        self.record_type
    }

    pub fn record_value(&self) -> (record_value: Vec<u8>)
        ensures
            record_value@ == self@.record_value,
    {
        self.record_value.clone()
    }

    pub fn ttl(&self) -> (ttl: u32)
        ensures
            ttl == self@.ttl,
    {
        self.ttl
    }

    pub fn priority(&self) -> (priority: Option<u32>)
        ensures
            priority == self@.priority,
    {
        self.priority
    }

    pub fn is_active(&self) -> (is_active: bool)
        ensures
            is_active == self@.is_active,
    {
        self.is_active
    }

    /// The statement that stores a record. Name, number of the type, data,
    /// time to live and priority are bound in this order.
    pub fn insert_statement(table: &str) -> (statement: String)
        ensures
            statement@ == insert_text(table@),
    {
        let mut text = "INSERT INTO ".to_string();
        text.append(table);
        text.append("(domain_name, record_type, record_value, ttl, priority) VALUES (?, ?, ?, ?, ?);");
        text
    }
}

impl Default for RecordEntity {
    fn default() -> (entity: RecordEntity)
        ensures
            entity@ == (RecordEntityView {
                id: 0,
                domain_name: Seq::<char>::empty(),
                record_type: 0,
                record_value: Seq::<u8>::empty(),
                ttl: 3600,
                priority: None,
                is_active: false,
            }),
    {
        RecordEntity {
            id: 0,
            domain_name: String::new(),
            record_type: 0,
            record_value: Vec::new(),
            ttl: 3600,
            priority: None,
            is_active: false,
        }
    }
}

} // verus!

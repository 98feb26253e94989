//! The entries of the question section.

use super::record_type::RecordType;
use crate::error::DnsError;
use crate::protocol::name::{
    canonical_name, decode_name, encode_name, lemma_canonical_encodes, lemma_encoded_length,
    lemma_name_round_trip, name_at,
};
use crate::protocol::util::encode_domain;
use crate::protocol::wire::{be16, lemma_be16_round_trip, push_u16, read_u16, u16_at};
use vstd::prelude::*;
use vstd::std_specs::cmp::PartialEqSpecImpl;
use vstd::utf8::encode_utf8;

verus! {

/// What a question is: the name asked for, and the numbers of the type and of
/// the class asked for.
pub struct QuestionView {
    pub name: Seq<char>,
    pub qtype: u16,
    pub qclass: u16,
}

/// A length plus the fixed part of an entry, held to what `usize` can hold.
pub open spec fn capped(length: nat) -> usize {
    if length <= usize::MAX {
        length as usize
    } else {
        usize::MAX
    }
}

/// The bytes that a question is encoded as.
pub open spec fn question_wire(question: QuestionView) -> Result<Seq<u8>, DnsError> {
    match encode_name(encode_utf8(question.name)) {
        Ok(name) => Ok(name + be16(question.qtype) + be16(question.qclass)),
        Err(error) => Err(error),
    }
}

/// The question that is read at an offset of a message, and the offset behind
/// it: a name, then the type and the class as 16-bit integers.
pub open spec fn question_at(buffer: Seq<u8>, at: int) -> Result<(QuestionView, int), DnsError> {
    match name_at(buffer, at) {
        Ok((name, end)) => if end + 4 > buffer.len() {
            Err(DnsError::Truncated)
        } else {
            Ok(
                (
                    QuestionView {
                        name,
                        qtype: u16_at(buffer, end),
                        qclass: u16_at(buffer, end + 2),
                    },
                    end + 4,
                ),
            )
        },
        Err(error) => Err(error),
    }
}

/// Whether the name of a question is canonical.
pub open spec fn canonical_question(question: QuestionView) -> bool {
    canonical_name(encode_utf8(question.name))
}

/// A question with a canonical name that was written to a buffer is read
/// back as it was written, and the cursor stops where its bytes end.
pub proof fn lemma_question_round_trip(question: QuestionView, buffer: Seq<u8>, at: int)
    requires
        canonical_question(question),
        0 <= at,
        at + question_wire(question).unwrap().len() <= buffer.len(),
        buffer.subrange(at, at + question_wire(question).unwrap().len()) == question_wire(
            question,
        ).unwrap(),
    ensures
        question_wire(question) is Ok,
        question_at(buffer, at) == Ok::<(QuestionView, int), DnsError>(
            (question, at + question_wire(question).unwrap().len()),
        ),
{
    let bytes = encode_utf8(question.name);
    lemma_canonical_encodes(bytes);
    let name = encode_name(bytes).unwrap();
    let wire = question_wire(question).unwrap();
    let window = buffer.subrange(at, at + wire.len());
    assert(wire == name + be16(question.qtype) + be16(question.qclass));
    assert(buffer.subrange(at, at + name.len()) =~= name) by {
        assert forall|k: int| 0 <= k < name.len() implies buffer.subrange(at, at + name.len())[k]
            == name[k] by {
            assert(window[k] == wire[k]);
        }
    }
    lemma_name_round_trip(question.name, buffer, at);
    let n = name.len() as int;
    let end = at + n;
    lemma_be16_round_trip(question.qtype);
    lemma_be16_round_trip(question.qclass);
    assert(buffer[end] == window[n]);
    assert(buffer[end + 1] == window[n + 1]);
    assert(buffer[end + 2] == window[n + 2]);
    assert(buffer[end + 3] == window[n + 3]);
    assert(wire[n] == be16(question.qtype)[0]);
    assert(wire[n + 1] == be16(question.qtype)[1]);
    assert(wire[n + 2] == be16(question.qclass)[0]);
    assert(wire[n + 3] == be16(question.qclass)[1]);
}

/// A question with a canonical name other than the root reports the length
/// of its encoding as its size, as far as `usize` can hold it.
pub proof fn lemma_question_size(question: QuestionView)
    requires
        canonical_question(question),
        question.name.len() > 0,
    ensures
        question_wire(question) is Ok,
        Question::size_of(question.name) == capped(question_wire(question).unwrap().len()),
{
    let bytes = encode_utf8(question.name);
    lemma_canonical_encodes(bytes);
    vstd::utf8::encode_utf8_decode_utf8(question.name);
    if bytes.len() == 0 {
        assert(vstd::utf8::decode_utf8(bytes) =~= Seq::<char>::empty());
    }
    lemma_encoded_length(bytes);
}

/// One entry of the question section.
#[derive(Debug)]
pub struct Question {
    name: String,
    qtype: u16,
    qclass: u16,
    size: usize,
}

impl View for Question {
    type V = QuestionView;

    closed spec fn view(&self) -> QuestionView {
        QuestionView { name: self.name@, qtype: self.qtype, qclass: self.qclass }
    }
}

/// How many bytes the text takes in UTF-8.
pub fn byte_len(text: &String) -> (len: usize)
    ensures
        len == encode_utf8(text@).len(),
{
    text.as_str().as_bytes().len()
}

impl Question {
    /// The size that a question of the name reports: the length of the name
    /// and six bytes more, held to what `usize` can hold. For a name that is
    /// encoded as it is written, this is the length of the encoded question.
    pub open spec fn size_of(name: Seq<char>) -> usize {
        capped(6 + encode_utf8(name).len())
    }

    #[verifier::type_invariant]
    spec fn well_formed(self) -> bool {
        self.size == Question::size_of(self.name@)
    }

    pub fn with_name(self, name: String) -> (question: Question)
        ensures
            question@ == (QuestionView { name: name@, ..self@ }),
    {
        let size: usize = byte_len(&name).saturating_add(6);
        Question { name, qtype: self.qtype, qclass: self.qclass, size }
    }

    pub fn with_qtype(self, qtype: u16) -> (question: Question)
        ensures
            question@ == (QuestionView { qtype, ..self@ }),
    {
        proof {
            use_type_invariant(&self);
        }
        Question { name: self.name, qtype, qclass: self.qclass, size: self.size }
    }

    pub fn with_qclass(self, qclass: u16) -> (question: Question)
        ensures
            question@ == (QuestionView { qclass, ..self@ }),
    {
        proof {
            use_type_invariant(&self);
        }
        Question { name: self.name, qtype: self.qtype, qclass, size: self.size }
    }

    /// Encodes the question: its name as labels, then type and class.
    pub fn serialize(&self) -> (outcome: Result<Vec<u8>, DnsError>)
        ensures
            match question_wire(self@) {
                Ok(wire) => outcome matches Ok(bytes) && bytes@ == wire,
                Err(error) => outcome == Err::<Vec<u8>, DnsError>(error),
            },
    {
        let mut buf: Vec<u8> = match encode_domain(self.name.clone()) {
            Ok(name) => name,
            Err(error) => {
                return Err(error);
            },
        };
        push_u16(&mut buf, self.qtype);
        push_u16(&mut buf, self.qclass);
        Ok(buf)
    }

    /// Decodes the question at the cursor and moves the cursor behind it. When
    /// the question cannot be read, the cursor stays.
    pub fn deserialize(buffer: &[u8], offset: &mut usize) -> (outcome: Result<Question, DnsError>)
        ensures
            match question_at(buffer@, *old(offset) as int) {
                Ok((question, next)) => outcome matches Ok(read) && read@ == question
                    && *final(offset) == next,
                Err(error) => outcome == Err::<Question, DnsError>(error) && *final(offset)
                    == *old(offset),
            },
    {
        let (name, end) = match decode_name(buffer, *offset) {
            Ok(read) => read,
            Err(error) => {
                return Err(error);
            },
        };
        if end > buffer.len() || buffer.len() - end < 4 {
            return Err(DnsError::Truncated);
        }
        let qtype: u16 = read_u16(buffer, end);
        let qclass: u16 = read_u16(buffer, end + 2);
        *offset = end + 4;
        let size: usize = byte_len(&name).saturating_add(6);
        Ok(Question { name, qtype, qclass, size })
    }

    pub fn size(&self) -> (size: usize)
        ensures
            size == Question::size_of(self@.name),
    {
        proof {
            use_type_invariant(self);
        }
        self.size
    }

    pub fn name(&self) -> (name: String)
        ensures
            name@ == self@.name,
    {
        self.name.clone()
    }

    pub fn qtype(&self) -> (qtype: RecordType)
        ensures
            qtype == RecordType::of(self@.qtype),
    {
        RecordType::from(self.qtype)
    }

    pub fn qclass(&self) -> (qclass: u16)
        ensures
            qclass == self@.qclass,
    {
        self.qclass
    }

    /// The number of the type asked for, as it stands on the wire.
    pub fn qtype_code(&self) -> (qtype: u16)
        ensures
            qtype == self@.qtype,
    {
        self.qtype
    }
}

impl Default for Question {
    fn default() -> (question: Question)
        ensures
            question@ == (QuestionView { name: Seq::<char>::empty(), qtype: 1, qclass: 1 }),
    {
        let name = String::new();
        let size: usize = byte_len(&name).saturating_add(6);
        Question { name, qtype: 1, qclass: 1, size }
    }
}

impl Clone for Question {
    fn clone(&self) -> (copy: Question)
        ensures
            copy@ == self@,
    {
        proof {
            use_type_invariant(self);
        }
        Question {
            name: self.name.clone(),
            qtype: self.qtype,
            qclass: self.qclass,
            size: self.size,
        }
    }
}

impl PartialEq for Question {
    fn eq(&self, other: &Question) -> (equal: bool) {
        self.name == other.name && self.qtype == other.qtype && self.qclass == other.qclass
    }
}

impl PartialEqSpecImpl for Question {
    open spec fn obeys_eq_spec() -> bool {
        true
    }

    open spec fn eq_spec(&self, other: &Question) -> bool {
        self@ == other@
    }
}

} // verus!

//! Whole messages: a header and four sections.

use super::header::{lemma_header_round_trip, PacketHeader, HEADER_LEN};
use super::question::{
    canonical_question, lemma_question_round_trip, question_at, question_wire, Question,
    QuestionView,
};
use super::resource_record::{
    canonical_record, lemma_record_round_trip, record_at, record_wire, RecordView,
    ResourceRecord,
};
use crate::error::DnsError;
use crate::protocol::wire::push_bytes;
use vstd::prelude::*;
use vstd::std_specs::cmp::PartialEqSpecImpl;

verus! {

/// What a message is: its header and the entries of its four sections.
pub struct PacketView {
    pub header: PacketHeader,
    pub questions: Seq<QuestionView>,
    pub answers: Seq<RecordView>,
    pub authorities: Seq<RecordView>,
    pub additionals: Seq<RecordView>,
}

/// What a list of questions is.
pub open spec fn question_views(questions: Seq<Question>) -> Seq<QuestionView> {
    questions.map_values(|question: Question| question@)
}

/// What a list of resource records is.
pub open spec fn record_views(records: Seq<ResourceRecord>) -> Seq<RecordView> {
    records.map_values(|record: ResourceRecord| record@)
}

/// The bytes of a list of questions, one after the other. The first question
/// that cannot be encoded decides the error.
pub open spec fn questions_wire(questions: Seq<QuestionView>) -> Result<Seq<u8>, DnsError>
    decreases questions.len(),
{
    if questions.len() == 0 {
        Ok(Seq::<u8>::empty())
    } else {
        match question_wire(questions[0]) {
            Ok(first) => match questions_wire(questions.skip(1)) {
                Ok(rest) => Ok(first + rest),
                Err(error) => Err(error),
            },
            Err(error) => Err(error),
        }
    }
}

/// The bytes of a list of resource records, one after the other. The first
/// record that cannot be encoded decides the error.
pub open spec fn records_wire(records: Seq<RecordView>) -> Result<Seq<u8>, DnsError>
    decreases records.len(),
{
    if records.len() == 0 {
        Ok(Seq::<u8>::empty())
    } else {
        match record_wire(records[0]) {
            Ok(first) => match records_wire(records.skip(1)) {
                Ok(rest) => Ok(first + rest),
                Err(error) => Err(error),
            },
            Err(error) => Err(error),
        }
    }
}

/// Bytes followed by what is encoded after them.
pub open spec fn then_wire(written: Seq<u8>, rest: Result<Seq<u8>, DnsError>) -> Result<
    Seq<u8>,
    DnsError,
> {
    match rest {
        Ok(bytes) => Ok(written + bytes),
        Err(error) => Err(error),
    }
}

/// The bytes of a message: the header as it stands, then the questions, the
/// answers, the authorities and the additionals.
pub open spec fn packet_wire(packet: PacketView) -> Result<Seq<u8>, DnsError> {
    then_wire(
        packet.header.wire(),
        match questions_wire(packet.questions) {
            Ok(questions) => then_wire(
                questions,
                match records_wire(packet.answers) {
                    Ok(answers) => then_wire(
                        answers,
                        match records_wire(packet.authorities) {
                            Ok(authorities) => then_wire(
                                authorities,
                                records_wire(packet.additionals),
                            ),
                            Err(error) => Err(error),
                        },
                    ),
                    Err(error) => Err(error),
                },
            ),
            Err(error) => Err(error),
        },
    )
}

/// The given number of questions read one after the other from an offset, and
/// the offset behind the last.
pub open spec fn questions_at(buffer: Seq<u8>, at: int, count: nat) -> Result<
    (Seq<QuestionView>, int),
    DnsError,
>
    decreases count,
{
    if count == 0 {
        Ok((Seq::<QuestionView>::empty(), at))
    } else {
        match question_at(buffer, at) {
            Ok((first, next)) => match questions_at(buffer, next, (count - 1) as nat) {
                Ok((rest, end)) => Ok((seq![first] + rest, end)),
                Err(error) => Err(error),
            },
            Err(error) => Err(error),
        }
    }
}

/// The given number of resource records read one after the other from an
/// offset, and the offset behind the last.
pub open spec fn records_at(buffer: Seq<u8>, at: int, count: nat) -> Result<
    (Seq<RecordView>, int),
    DnsError,
>
    decreases count,
{
    if count == 0 {
        Ok((Seq::<RecordView>::empty(), at))
    } else {
        match record_at(buffer, at) {
            Ok((first, next)) => match records_at(buffer, next, (count - 1) as nat) {
                Ok((rest, end)) => Ok((seq![first] + rest, end)),
                Err(error) => Err(error),
            },
            Err(error) => Err(error),
        }
    }
}

/// The message that a buffer holds: the header in the first twelve bytes, then
/// as many questions, answers, authorities and additionals as the header
/// counts, read with one cursor. Bytes behind the last entry are left alone.
pub open spec fn packet_of(buffer: Seq<u8>) -> Result<PacketView, DnsError> {
    if buffer.len() < 12 {
        Err(DnsError::Truncated)
    } else {
        let header = PacketHeader::parse(buffer);
        match questions_at(buffer, 12, header.qdcount as nat) {
            Ok((questions, a)) => match records_at(buffer, a, header.ancount as nat) {
                Ok((answers, b)) => match records_at(buffer, b, header.nscount as nat) {
                    Ok((authorities, c)) => match records_at(buffer, c, header.arcount as nat) {
                        Ok((additionals, _)) => Ok(
                            PacketView { header, questions, answers, authorities, additionals },
                        ),
                        Err(error) => Err(error),
                    },
                    Err(error) => Err(error),
                },
                Err(error) => Err(error),
            },
            Err(error) => Err(error),
        }
    }
}

/// Whether every question of a list is canonical.
pub open spec fn canonical_questions(questions: Seq<QuestionView>) -> bool {
    forall|i: int| 0 <= i < questions.len() ==> canonical_question(#[trigger] questions[i])
}

/// Canonical questions are encoded without a failure.
pub proof fn lemma_questions_encode(questions: Seq<QuestionView>)
    requires
        canonical_questions(questions),
    ensures
        questions_wire(questions) is Ok,
    decreases questions.len(),
{
    if questions.len() > 0 {
        assert(canonical_question(questions[0]));
        crate::protocol::name::lemma_canonical_encodes(vstd::utf8::encode_utf8(questions[0].name));
        assert(canonical_questions(questions.skip(1))) by {
            assert forall|i: int| 0 <= i < questions.skip(1).len() implies canonical_question(
                #[trigger] questions.skip(1)[i],
            ) by {
                assert(questions.skip(1)[i] == questions[i + 1]);
            }
        }
        lemma_questions_encode(questions.skip(1));
    }
}

/// Canonical questions that were written to a buffer one after the other are
/// read back as they were written, and the cursor stops where their bytes end.
pub proof fn lemma_questions_round_trip(questions: Seq<QuestionView>, buffer: Seq<u8>, at: int)
    requires
        canonical_questions(questions),
        0 <= at,
        at + questions_wire(questions).unwrap().len() <= buffer.len(),
        buffer.subrange(at, at + questions_wire(questions).unwrap().len()) == questions_wire(
            questions,
        ).unwrap(),
    ensures
        questions_wire(questions) is Ok,
        questions_at(buffer, at, questions.len()) == Ok::<(Seq<QuestionView>, int), DnsError>(
            (questions, at + questions_wire(questions).unwrap().len()),
        ),
    decreases questions.len(),
{
    lemma_questions_encode(questions);
    if questions.len() == 0 {
        assert(questions =~= Seq::<QuestionView>::empty());
    } else {
        let first = questions[0];
        let rest = questions.skip(1);
        assert(canonical_question(first));
        assert(canonical_questions(rest)) by {
            assert forall|i: int| 0 <= i < rest.len() implies canonical_question(#[trigger] rest[i]) by {
                assert(rest[i] == questions[i + 1]);
            }
        }
        lemma_questions_encode(rest);
        crate::protocol::name::lemma_canonical_encodes(vstd::utf8::encode_utf8(first.name));
        let head = question_wire(first).unwrap();
        let tail = questions_wire(rest).unwrap();
        let wire = questions_wire(questions).unwrap();
        assert(wire == head + tail);
        let window = buffer.subrange(at, at + wire.len());
        assert(buffer.subrange(at, at + head.len()) =~= head) by {
            assert forall|k: int| 0 <= k < head.len() implies buffer.subrange(
                at,
                at + head.len(),
            )[k] == head[k] by {
                assert(window[k] == wire[k]);
            }
        }
        lemma_question_round_trip(first, buffer, at);
        let next = at + head.len();
        assert(buffer.subrange(next, next + tail.len()) =~= tail) by {
            assert forall|k: int| 0 <= k < tail.len() implies buffer.subrange(
                next,
                next + tail.len(),
            )[k] == tail[k] by {
                assert(window[head.len() + k] == wire[head.len() + k]);
            }
        }
        lemma_questions_round_trip(rest, buffer, next);
        assert(seq![first] + rest =~= questions);
        assert((questions.len() - 1) as nat == rest.len());
    }
}

/// Whether every record of a list is canonical.
pub open spec fn canonical_records(records: Seq<RecordView>) -> bool {
    forall|i: int| 0 <= i < records.len() ==> canonical_record(#[trigger] records[i])
}

/// Canonical records are encoded without a failure.
pub proof fn lemma_records_encode(records: Seq<RecordView>)
    requires
        canonical_records(records),
    ensures
        records_wire(records) is Ok,
    decreases records.len(),
{
    if records.len() > 0 {
        assert(canonical_record(records[0]));
        crate::protocol::name::lemma_canonical_encodes(vstd::utf8::encode_utf8(records[0].name));
        assert(canonical_records(records.skip(1))) by {
            assert forall|i: int| 0 <= i < records.skip(1).len() implies canonical_record(
                #[trigger] records.skip(1)[i],
            ) by {
                assert(records.skip(1)[i] == records[i + 1]);
            }
        }
        lemma_records_encode(records.skip(1));
    }
}

/// Canonical records that were written to a buffer one after the other are
/// read back as they were written, and the cursor stops where their bytes end.
pub proof fn lemma_records_round_trip(records: Seq<RecordView>, buffer: Seq<u8>, at: int)
    requires
        canonical_records(records),
        0 <= at,
        at + records_wire(records).unwrap().len() <= buffer.len(),
        buffer.subrange(at, at + records_wire(records).unwrap().len()) == records_wire(
            records,
        ).unwrap(),
    ensures
        records_wire(records) is Ok,
        records_at(buffer, at, records.len()) == Ok::<(Seq<RecordView>, int), DnsError>(
            (records, at + records_wire(records).unwrap().len()),
        ),
    decreases records.len(),
{
    lemma_records_encode(records);
    if records.len() == 0 {
        assert(records =~= Seq::<RecordView>::empty());
    } else {
        let first = records[0];
        let rest = records.skip(1);
        assert(canonical_record(first));
        assert(canonical_records(rest)) by {
            assert forall|i: int| 0 <= i < rest.len() implies canonical_record(#[trigger] rest[i]) by {
                assert(rest[i] == records[i + 1]);
            }
        }
        lemma_records_encode(rest);
        crate::protocol::name::lemma_canonical_encodes(vstd::utf8::encode_utf8(first.name));
        let head = record_wire(first).unwrap();
        let tail = records_wire(rest).unwrap();
        let wire = records_wire(records).unwrap();
        assert(wire == head + tail);
        let window = buffer.subrange(at, at + wire.len());
        assert(buffer.subrange(at, at + head.len()) =~= head) by {
            assert forall|k: int| 0 <= k < head.len() implies buffer.subrange(
                at,
                at + head.len(),
            )[k] == head[k] by {
                assert(window[k] == wire[k]);
            }
        }
        lemma_record_round_trip(first, buffer, at);
        let next = at + head.len();
        assert(buffer.subrange(next, next + tail.len()) =~= tail) by {
            assert forall|k: int| 0 <= k < tail.len() implies buffer.subrange(
                next,
                next + tail.len(),
            )[k] == tail[k] by {
                assert(window[head.len() + k] == wire[head.len() + k]);
            }
        }
        lemma_records_round_trip(rest, buffer, next);
        assert(seq![first] + rest =~= records);
        assert((records.len() - 1) as nat == rest.len());
    }
}

/// Whether a message is encoded without loss: the counts of its header are
/// the lengths of its sections, its names are canonical, and the data of each
/// record are at most 65535 bytes long.
pub open spec fn well_formed(packet: PacketView) -> bool {
    &&& packet.header.qdcount == packet.questions.len()
    &&& packet.header.ancount == packet.answers.len()
    &&& packet.header.nscount == packet.authorities.len()
    &&& packet.header.arcount == packet.additionals.len()
    &&& canonical_questions(packet.questions)
    &&& canonical_records(packet.answers)
    &&& canonical_records(packet.authorities)
    &&& canonical_records(packet.additionals)
}

/// Where each of four runs of bytes starts when they are put behind a fifth,
/// one after the other.
pub open spec fn starts(h: Seq<u8>, q: Seq<u8>, a: Seq<u8>, n: Seq<u8>) -> (int, int, int, int) {
    let first = h.len() as int;
    let second = first + q.len();
    let third = second + a.len();
    let fourth = third + n.len();
    (first, second, third, fourth)
}

/// Of five runs of bytes put one after the other, each of the last four is
/// found again at its place.
pub proof fn lemma_sections_found(h: Seq<u8>, q: Seq<u8>, a: Seq<u8>, n: Seq<u8>, r: Seq<u8>)
    ensures
        (h + (q + (a + (n + r)))).len() == starts(h, q, a, n).3 + r.len(),
        (h + (q + (a + (n + r)))).subrange(starts(h, q, a, n).0, starts(h, q, a, n).1) == q,
        (h + (q + (a + (n + r)))).subrange(starts(h, q, a, n).1, starts(h, q, a, n).2) == a,
        (h + (q + (a + (n + r)))).subrange(starts(h, q, a, n).2, starts(h, q, a, n).3) == n,
        (h + (q + (a + (n + r)))).subrange(
            starts(h, q, a, n).3,
            starts(h, q, a, n).3 + r.len(),
        ) == r,
{
    let buffer = h + (q + (a + (n + r)));
    let at = starts(h, q, a, n);
    assert(buffer.subrange(at.0, at.1) =~= q);
    assert(buffer.subrange(at.1, at.2) =~= a);
    assert(buffer.subrange(at.2, at.3) =~= n);
    assert(buffer.subrange(at.3, at.3 + r.len()) =~= r);
}

/// A message whose sections are encoded without a failure is encoded as its
/// header followed by the encodings of its sections.
pub proof fn lemma_packet_wire(packet: PacketView)
    requires
        questions_wire(packet.questions) is Ok,
        records_wire(packet.answers) is Ok,
        records_wire(packet.authorities) is Ok,
        records_wire(packet.additionals) is Ok,
    ensures
        packet_wire(packet) == Ok::<Seq<u8>, DnsError>(
            packet.header.wire() + (questions_wire(packet.questions).unwrap() + (records_wire(
                packet.answers,
            ).unwrap() + (records_wire(packet.authorities).unwrap() + records_wire(
                packet.additionals,
            ).unwrap()))),
        ),
{
}

/// A buffer in which a header is read, and behind it, one after the other,
/// as many questions, answers, authorities and additionals as the header
/// counts, holds the message that is made of them.
pub proof fn lemma_packet_of(
    buffer: Seq<u8>,
    packet: PacketView,
    after_questions: int,
    after_answers: int,
    after_authorities: int,
    end: int,
)
    requires
        buffer.len() >= 12,
        PacketHeader::parse(buffer) == packet.header,
        questions_at(buffer, 12, packet.header.qdcount as nat) == Ok::<
            (Seq<QuestionView>, int),
            DnsError,
        >((packet.questions, after_questions)),
        records_at(buffer, after_questions, packet.header.ancount as nat) == Ok::<
            (Seq<RecordView>, int),
            DnsError,
        >((packet.answers, after_answers)),
        records_at(buffer, after_answers, packet.header.nscount as nat) == Ok::<
            (Seq<RecordView>, int),
            DnsError,
        >((packet.authorities, after_authorities)),
        records_at(buffer, after_authorities, packet.header.arcount as nat) == Ok::<
            (Seq<RecordView>, int),
            DnsError,
        >((packet.additionals, end)),
    ensures
        packet_of(buffer) == Ok::<PacketView, DnsError>(packet),
{
}

/// A well-formed message is encoded without a failure, and its encoding is
/// decoded as the message itself: header, questions, answers, authorities and
/// additionals.
pub proof fn lemma_packet_round_trip(packet: PacketView)
    requires
        well_formed(packet),
    ensures
        packet_wire(packet) is Ok,
        packet_of(packet_wire(packet).unwrap()) == Ok::<PacketView, DnsError>(packet),
{
    lemma_questions_encode(packet.questions);
    lemma_records_encode(packet.answers);
    lemma_records_encode(packet.authorities);
    lemma_records_encode(packet.additionals);
    lemma_packet_wire(packet);
    let h = packet.header.wire();
    let q = questions_wire(packet.questions).unwrap();
    let a = records_wire(packet.answers).unwrap();
    let n = records_wire(packet.authorities).unwrap();
    let r = records_wire(packet.additionals).unwrap();
    let buffer = h + (q + (a + (n + r)));
    lemma_header_round_trip(packet.header, q + (a + (n + r)));
    lemma_sections_found(h, q, a, n, r);
    let at = starts(h, q, a, n);
    let after_questions = at.1;
    let after_answers = at.2;
    let after_authorities = at.3;
    let end = at.3 + r.len();
    lemma_questions_round_trip(packet.questions, buffer, 12);
    lemma_records_round_trip(packet.answers, buffer, after_questions);
    lemma_records_round_trip(packet.authorities, buffer, after_answers);
    lemma_records_round_trip(packet.additionals, buffer, after_authorities);
    lemma_packet_of(buffer, packet, after_questions, after_answers, after_authorities, end);
}

/// A message.
#[derive(Debug)]
pub struct Packet {
    pub header: PacketHeader,
    pub questions: Vec<Question>,
    pub answers: Vec<ResourceRecord>,
    pub authorities: Vec<ResourceRecord>,
    pub additionals: Vec<ResourceRecord>,
}

impl View for Packet {
    type V = PacketView;

    open spec fn view(&self) -> PacketView {
        PacketView {
            header: self.header,
            questions: question_views(self.questions@),
            answers: record_views(self.answers@),
            authorities: record_views(self.authorities@),
            additionals: record_views(self.additionals@),
        }
    }
}

/// Appends the encodings of the questions, or reports the first that cannot
/// be encoded.
pub fn write_questions(buffer: &mut Vec<u8>, questions: &Vec<Question>) -> (outcome: Result<
    (),
    DnsError,
>)
    ensures
        match questions_wire(question_views(questions@)) {
            Ok(wire) => outcome is Ok && final(buffer)@ == old(buffer)@ + wire,
            Err(error) => outcome == Err::<(), DnsError>(error),
        },
{
    let ghost views = question_views(questions@);
    let ghost mut written: Seq<u8> = Seq::empty();
    let mut i: usize = 0;
    assert(views.skip(0) =~= views);
    while i < questions.len()
        invariant
            i <= questions.len(),
            views == question_views(questions@),
            questions_wire(views) == then_wire(written, questions_wire(views.skip(i as int))),
            buffer@ == old(buffer)@ + written,
        decreases questions.len() - i,
    {
        assert(views.skip(i as int).skip(1) =~= views.skip(i + 1));
        assert(views.skip(i as int)[0] == questions@[i as int]@);
        match questions[i].serialize() {
            Ok(bytes) => {
                push_bytes(buffer, bytes.as_slice());
                proof {
                    let rest = questions_wire(views.skip(i + 1));
                    if rest is Ok {
                        assert(written + (bytes@ + rest.unwrap()) =~= (written + bytes@)
                            + rest.unwrap());
                    }
                    assert(old(buffer)@ + written + bytes@ =~= old(buffer)@ + (written + bytes@));
                    written = written + bytes@;
                }
            },
            Err(error) => {
                return Err(error);
            },
        }
        i += 1;
    }
    assert(written + Seq::<u8>::empty() =~= written);
    Ok(())
}

/// Appends the encodings of the resource records, or reports the first that
/// cannot be encoded.
pub fn write_records(buffer: &mut Vec<u8>, records: &Vec<ResourceRecord>) -> (outcome: Result<
    (),
    DnsError,
>)
    ensures
        match records_wire(record_views(records@)) {
            Ok(wire) => outcome is Ok && final(buffer)@ == old(buffer)@ + wire,
            Err(error) => outcome == Err::<(), DnsError>(error),
        },
{
    let ghost views = record_views(records@);
    let ghost mut written: Seq<u8> = Seq::empty();
    let mut i: usize = 0;
    assert(views.skip(0) =~= views);
    while i < records.len()
        invariant
            i <= records.len(),
            views == record_views(records@),
            records_wire(views) == then_wire(written, records_wire(views.skip(i as int))),
            buffer@ == old(buffer)@ + written,
        decreases records.len() - i,
    {
        assert(views.skip(i as int).skip(1) =~= views.skip(i + 1));
        assert(views.skip(i as int)[0] == records@[i as int]@);
        match records[i].serialize() {
            Ok(bytes) => {
                push_bytes(buffer, bytes.as_slice());
                proof {
                    let rest = records_wire(views.skip(i + 1));
                    if rest is Ok {
                        assert(written + (bytes@ + rest.unwrap()) =~= (written + bytes@)
                            + rest.unwrap());
                    }
                    assert(old(buffer)@ + written + bytes@ =~= old(buffer)@ + (written + bytes@));
                    written = written + bytes@;
                }
            },
            Err(error) => {
                return Err(error);
            },
        }
        i += 1;
    }
    assert(written + Seq::<u8>::empty() =~= written);
    Ok(())
}

/// Questions already read, followed by what is read after them.
pub open spec fn then_questions(
    done: Seq<QuestionView>,
    rest: Result<(Seq<QuestionView>, int), DnsError>,
) -> Result<(Seq<QuestionView>, int), DnsError> {
    match rest {
        Ok((more, end)) => Ok((done + more, end)),
        Err(error) => Err(error),
    }
}

/// Resource records already read, followed by what is read after them.
pub open spec fn then_records(
    done: Seq<RecordView>,
    rest: Result<(Seq<RecordView>, int), DnsError>,
) -> Result<(Seq<RecordView>, int), DnsError> {
    match rest {
        Ok((more, end)) => Ok((done + more, end)),
        Err(error) => Err(error),
    }
}

/// Reads the given number of questions from an offset on: the questions, and
/// the offset behind the last.
pub fn read_questions(buffer: &[u8], start: usize, count: u16) -> (outcome: Result<
    (Vec<Question>, usize),
    DnsError,
>)
    ensures
        match questions_at(buffer@, start as int, count as nat) {
            Ok((questions, end)) => outcome matches Ok((read, next)) && question_views(read@)
                == questions && next == end,
            Err(error) => outcome == Err::<(Vec<Question>, usize), DnsError>(error),
        },
{
    let mut questions: Vec<Question> = Vec::new();
    let mut offset: usize = start;
    let mut i: u16 = 0;
    assert(question_views(questions@) =~= Seq::<QuestionView>::empty());
    while i < count
        invariant
            i <= count,
            questions_at(buffer@, start as int, count as nat) == then_questions(
                question_views(questions@),
                questions_at(buffer@, offset as int, (count - i) as nat),
            ),
        decreases count - i,
    {
        let ghost done = question_views(questions@);
        match Question::deserialize(buffer, &mut offset) {
            Ok(question) => {
                proof {
                    let rest = questions_at(buffer@, offset as int, (count - i - 1) as nat);
                    if rest is Ok {
                        assert(done + (seq![question@] + rest.unwrap().0) =~= done.push(question@)
                            + rest.unwrap().0);
                    }
                    assert(question_views(questions@.push(question)) =~= done.push(question@));
                }
                questions.push(question);
            },
            Err(error) => {
                return Err(error);
            },
        }
        i += 1;
    }
    assert(question_views(questions@) + Seq::<QuestionView>::empty() =~= question_views(
        questions@,
    ));
    Ok((questions, offset))
}

/// Reads the given number of resource records from an offset on: the records,
/// and the offset behind the last.
pub fn read_records(buffer: &[u8], start: usize, count: u16) -> (outcome: Result<
    (Vec<ResourceRecord>, usize),
    DnsError,
>)
    ensures
        match records_at(buffer@, start as int, count as nat) {
            Ok((records, end)) => outcome matches Ok((read, next)) && record_views(read@)
                == records && next == end,
            Err(error) => outcome == Err::<(Vec<ResourceRecord>, usize), DnsError>(error),
        },
{
    let mut records: Vec<ResourceRecord> = Vec::new();
    let mut offset: usize = start;
    let mut i: u16 = 0;
    assert(record_views(records@) =~= Seq::<RecordView>::empty());
    while i < count
        invariant
            i <= count,
            records_at(buffer@, start as int, count as nat) == then_records(
                record_views(records@),
                records_at(buffer@, offset as int, (count - i) as nat),
            ),
        decreases count - i,
    {
        let ghost done = record_views(records@);
        match ResourceRecord::deserialize(buffer, &mut offset) {
            Ok(record) => {
                proof {
                    let rest = records_at(buffer@, offset as int, (count - i - 1) as nat);
                    if rest is Ok {
                        assert(done + (seq![record@] + rest.unwrap().0) =~= done.push(record@)
                            + rest.unwrap().0);
                    }
                    assert(record_views(records@.push(record)) =~= done.push(record@));
                }
                records.push(record);
            },
            Err(error) => {
                return Err(error);
            },
        }
        i += 1;
    }
    assert(record_views(records@) + Seq::<RecordView>::empty() =~= record_views(records@));
    Ok((records, offset))
}

/// A copy of a list of questions.
pub fn clone_questions(questions: &Vec<Question>) -> (copy: Vec<Question>)
    ensures
        question_views(copy@) == question_views(questions@),
{
    let mut copy: Vec<Question> = Vec::new();
    let mut i: usize = 0;
    while i < questions.len()
        invariant
            i <= questions.len(),
            copy@.len() == i,
            forall|k: int| 0 <= k < i ==> copy@[k]@ == questions@[k]@,
        decreases questions.len() - i,
    {
        let question = questions[i].clone();
        copy.push(question);
        i += 1;
    }
    assert(question_views(copy@) =~= question_views(questions@));
    copy
}

/// A copy of a list of resource records.
pub fn clone_records(records: &Vec<ResourceRecord>) -> (copy: Vec<ResourceRecord>)
    ensures
        record_views(copy@) == record_views(records@),
{
    let mut copy: Vec<ResourceRecord> = Vec::new();
    let mut i: usize = 0;
    while i < records.len()
        invariant
            i <= records.len(),
            copy@.len() == i,
            forall|k: int| 0 <= k < i ==> copy@[k]@ == records@[k]@,
        decreases records.len() - i,
    {
        let record = records[i].clone();
        copy.push(record);
        i += 1;
    }
    assert(record_views(copy@) =~= record_views(records@));
    copy
}

impl Packet {
    /// Encodes the message: the header as it stands, then each section in
    /// order. No compression pointer is written.
    pub fn serialize(&self) -> (outcome: Result<Vec<u8>, DnsError>)
        ensures
            match packet_wire(self@) {
                Ok(wire) => outcome matches Ok(bytes) && bytes@ == wire,
                Err(error) => outcome == Err::<Vec<u8>, DnsError>(error),
            },
    {
        let mut buffer: Vec<u8> = match self.header.serialize() {
            Ok(bytes) => bytes,
            Err(error) => {
                return Err(error);
            },
        };
        match write_questions(&mut buffer, &self.questions) {
            Ok(_) => {},
            Err(error) => {
                return Err(error);
            },
        }
        match write_records(&mut buffer, &self.answers) {
            Ok(_) => {},
            Err(error) => {
                return Err(error);
            },
        }
        match write_records(&mut buffer, &self.authorities) {
            Ok(_) => {},
            Err(error) => {
                return Err(error);
            },
        }
        match write_records(&mut buffer, &self.additionals) {
            Ok(_) => {},
            Err(error) => {
                return Err(error);
            },
        }
        proof {
            let h = self.header.wire();
            let q = questions_wire(self@.questions).unwrap();
            let a = records_wire(self@.answers).unwrap();
            let n = records_wire(self@.authorities).unwrap();
            let r = records_wire(self@.additionals).unwrap();
            assert(h + q + a + n + r =~= h + (q + (a + (n + r))));
        }
        Ok(buffer)
    }

    /// Decodes a message from the start of a buffer.
    pub fn deserialize(buffer: &[u8]) -> (outcome: Result<Packet, DnsError>)
        ensures
            match packet_of(buffer@) {
                Ok(packet) => outcome matches Ok(read) && read@ == packet,
                Err(error) => outcome == Err::<Packet, DnsError>(error),
            },
    {
        let header: PacketHeader = match PacketHeader::deserialize(buffer) {
            Ok(header) => header,
            Err(error) => {
                return Err(error);
            },
        };
        let (questions, after_questions) = match read_questions(
            buffer,
            HEADER_LEN,
            header.qdcount,
        ) {
            Ok(read) => read,
            Err(error) => {
                return Err(error);
            },
        };
        let (answers, after_answers) = match read_records(
            buffer,
            after_questions,
            header.ancount,
        ) {
            Ok(read) => read,
            Err(error) => {
                return Err(error);
            },
        };
        let (authorities, after_authorities) = match read_records(
            buffer,
            after_answers,
            header.nscount,
        ) {
            Ok(read) => read,
            Err(error) => {
                return Err(error);
            },
        };
        let (additionals, _) = match read_records(buffer, after_authorities, header.arcount) {
            Ok(read) => read,
            Err(error) => {
                return Err(error);
            },
        };
        Ok(Packet { header, questions, answers, authorities, additionals })
    }
}

impl Clone for Packet {
    fn clone(&self) -> (copy: Packet)
        ensures
            copy@ == self@,
    {
        Packet {
            header: self.header,
            questions: clone_questions(&self.questions),
            answers: clone_records(&self.answers),
            authorities: clone_records(&self.authorities),
            additionals: clone_records(&self.additionals),
        }
    }
}

/// Whether two lists of questions hold equal questions in the same order.
pub fn same_questions(left: &Vec<Question>, right: &Vec<Question>) -> (same: bool)
    ensures
        same == (question_views(left@) == question_views(right@)),
{
    if left.len() != right.len() {
        assert(question_views(left@).len() != question_views(right@).len());
        return false;
    }
    let mut i: usize = 0;
    while i < left.len()
        invariant
            i <= left.len(),
            left.len() == right.len(),
            forall|k: int| 0 <= k < i ==> left@[k]@ == right@[k]@,
        decreases left.len() - i,
    {
        if !(left[i] == right[i]) {
            assert(question_views(left@)[i as int] != question_views(right@)[i as int]);
            return false;
        }
        i += 1;
    }
    assert(question_views(left@) =~= question_views(right@));
    true
}

/// Whether two lists of resource records hold equal records in the same order.
pub fn same_records(left: &Vec<ResourceRecord>, right: &Vec<ResourceRecord>) -> (same: bool)
    ensures
        same == (record_views(left@) == record_views(right@)),
{
    if left.len() != right.len() {
        assert(record_views(left@).len() != record_views(right@).len());
        return false;
    }
    let mut i: usize = 0;
    while i < left.len()
        invariant
            i <= left.len(),
            left.len() == right.len(),
            forall|k: int| 0 <= k < i ==> left@[k]@ == right@[k]@,
        decreases left.len() - i,
    {
        if !(left[i] == right[i]) {
            assert(record_views(left@)[i as int] != record_views(right@)[i as int]);
            return false;
        }
        i += 1;
    }
    assert(record_views(left@) =~= record_views(right@));
    true
}

impl PartialEq for Packet {
    fn eq(&self, other: &Packet) -> (equal: bool) {
        self.header == other.header && same_questions(&self.questions, &other.questions)
            && same_records(&self.answers, &other.answers) && same_records(
            &self.authorities,
            &other.authorities,
        ) && same_records(&self.additionals, &other.additionals)
    }
}

impl PartialEqSpecImpl for Packet {
    open spec fn obeys_eq_spec() -> bool {
        true
    }

    open spec fn eq_spec(&self, other: &Packet) -> bool {
        self@ == other@
    }
}

} // verus!

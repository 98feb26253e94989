//! The assembly of a response from what came of each question.

use crate::error::DnsError;
use crate::protocol::answer::{answer_views, AnswerEntry, AnswerView};
use crate::protocol::packet::builder::{counted, PacketBuilder};
use crate::protocol::packet::flags::{Flags, HeaderFlags, OpCode, ResponseCode};
use crate::protocol::packet::header::PacketHeader;
use crate::protocol::packet::packet::{
    clone_questions, question_views, record_views, Packet, PacketView,
};
use crate::protocol::packet::question::QuestionView;
use crate::protocol::packet::resource_record::{RecordView, ResourceRecord};
use vstd::prelude::*;

verus! {

/// The bits of the flags word that hold the operation code.
pub const OPCODE_BITS: u16 = 0x3800;

/// The flags of a response to a request with the given flags word: the
/// operation code of the request, bit for bit, the flags QR and RA, the flag
/// AA where the response is given with authority, and the response code.
pub open spec fn response_flags(request: u16, rcode: ResponseCode, authoritive: bool) -> HeaderFlags {
    HeaderFlags(
        OpCode::of((request >> 11) & 7),
        if authoritive {
            (request & OPCODE_BITS) | 0x8480
        } else {
            (request & OPCODE_BITS) | 0x8080
        },
        rcode,
    )
}

/// Builds the flags of a response.
pub fn respond_flags(request: u16, rcode: ResponseCode, authoritive: bool) -> (flags: HeaderFlags)
    ensures
        flags == response_flags(request, rcode, authoritive),
{
    let kept: u16 = request & OPCODE_BITS;
    proof {
        assert(((request & 0x3800) >> 11) & 7 == (request >> 11) & 7) by (bit_vector);
        assert((request & 0x3800) & 15 == 0) by (bit_vector);
        assert(((request & 0x3800) | 0x8000) | 0x0080 == (request & 0x3800) | 0x8080)
            by (bit_vector);
        assert((((request & 0x3800) | 0x8000) | 0x0080) | 0x0400 == (request & 0x3800) | 0x8480)
            by (bit_vector);
    }
    let flags = HeaderFlags::from(kept).with_rcode(rcode).with_flag(Flags::QR).with_flag(Flags::RA);
    if authoritive {
        flags.with_flag(Flags::AA)
    } else {
        flags
    }
}

/// The flags word of a response carries the operation code of the request bit
/// for bit, has QR and RA set, has AA set exactly where the response is given
/// with authority, has TC and RD clear, and unpacks to the response code.
pub proof fn lemma_response_flags(request: u16, rcode: ResponseCode, authoritive: bool)
    ensures
        (response_flags(request, rcode, authoritive).word() >> 11) & 7 == (request >> 11) & 7,
        HeaderFlags::unpack(response_flags(request, rcode, authoritive).word()).0 == OpCode::of(
            (request >> 11) & 7,
        ),
        HeaderFlags::unpack(response_flags(request, rcode, authoritive).word()).2 == rcode,
        HeaderFlags::unpack(response_flags(request, rcode, authoritive).word()).has(Flags::QR),
        HeaderFlags::unpack(response_flags(request, rcode, authoritive).word()).has(Flags::RA),
        HeaderFlags::unpack(response_flags(request, rcode, authoritive).word()).has(Flags::AA)
            == authoritive,
        !HeaderFlags::unpack(response_flags(request, rcode, authoritive).word()).has(Flags::TC),
        !HeaderFlags::unpack(response_flags(request, rcode, authoritive).word()).has(Flags::RD),
{
    let flags = response_flags(request, rcode, authoritive);
    let raw = flags.1;
    crate::protocol::packet::flags::lemma_pack_then_unpack(flags, Flags::QR);
    crate::protocol::packet::flags::lemma_pack_then_unpack(flags, Flags::RA);
    crate::protocol::packet::flags::lemma_pack_then_unpack(flags, Flags::AA);
    crate::protocol::packet::flags::lemma_pack_then_unpack(flags, Flags::TC);
    crate::protocol::packet::flags::lemma_pack_then_unpack(flags, Flags::RD);
    assert(((request & 0x3800) | 0x8480) & 0x8000 == 0x8000 && ((request & 0x3800) | 0x8480)
        & 0x0080 == 0x0080 && ((request & 0x3800) | 0x8480) & 0x0400 == 0x0400 && ((request
        & 0x3800) | 0x8480) & 0x0200 != 0x0200 && ((request & 0x3800) | 0x8480) & 0x0100
        != 0x0100) by (bit_vector);
    assert(((request & 0x3800) | 0x8080) & 0x8000 == 0x8000 && ((request & 0x3800) | 0x8080)
        & 0x0080 == 0x0080 && ((request & 0x3800) | 0x8080) & 0x0400 != 0x0400 && ((request
        & 0x3800) | 0x8080) & 0x0200 != 0x0200 && ((request & 0x3800) | 0x8080) & 0x0100
        != 0x0100) by (bit_vector);
    assert((((request & 0x3800) | 0x8480) >> 11) & 7 == (request >> 11) & 7 && (((request
        & 0x3800) | 0x8080) >> 11) & 7 == (request >> 11) & 7) by (bit_vector);
    let field = (request >> 11) & 7;
    assert(field < 8) by (bit_vector)
        requires
            field == (request >> 11) & 7,
    ;
    let number = crate::protocol::packet::flags::opcode_number(flags.0, raw);
    assert(number == field);
    let low = crate::protocol::packet::flags::rcode_number(rcode, raw);
    assert((raw & 15) < 16) by (bit_vector);
    assert(number < 8 && low < 16 ==> ((((raw & 0xC7F0) | (number << 11) | low) >> 11) & 7)
        == number) by (bit_vector);
}

/// A list with a record added at its end, unless an equal record is in it.
pub open spec fn add_unique(list: Seq<RecordView>, record: RecordView) -> Seq<RecordView> {
    if list.contains(record) {
        list
    } else {
        list.push(record)
    }
}

/// A list with records added one by one, in their order, each unless an equal
/// record is already in the list.
pub open spec fn add_all_unique(list: Seq<RecordView>, more: Seq<RecordView>) -> Seq<RecordView>
    decreases more.len(),
{
    if more.len() == 0 {
        list
    } else {
        add_unique(add_all_unique(list, more.drop_last()), more.last())
    }
}

/// The answer section: the answer record of every entry that has one, in the
/// order of the entries, equal records included.
pub open spec fn gathered_answers(entries: Seq<AnswerView>) -> Seq<RecordView>
    decreases entries.len(),
{
    if entries.len() == 0 {
        Seq::empty()
    } else {
        match entries.last().resource {
            Some(record) => gathered_answers(entries.drop_last()).push(record),
            None => gathered_answers(entries.drop_last()),
        }
    }
}

/// The authority section: the authority records of the entries in their
/// order, each only where no equal record came before.
pub open spec fn gathered_authorities(entries: Seq<AnswerView>) -> Seq<RecordView>
    decreases entries.len(),
{
    if entries.len() == 0 {
        Seq::empty()
    } else {
        match entries.last().authority {
            Some(record) => add_unique(gathered_authorities(entries.drop_last()), record),
            None => gathered_authorities(entries.drop_last()),
        }
    }
}

/// The additional section: the additional records of the entries in their
/// order, each only where no equal record came before.
pub open spec fn gathered_additionals(entries: Seq<AnswerView>) -> Seq<RecordView>
    decreases entries.len(),
{
    if entries.len() == 0 {
        Seq::empty()
    } else {
        add_all_unique(gathered_additionals(entries.drop_last()), entries.last().additional)
    }
}

/// Whether every entry was given with authority.
pub open spec fn all_authoritive(entries: Seq<AnswerView>) -> bool {
    forall|i: int| 0 <= i < entries.len() ==> (#[trigger] entries[i]).authoritive
}

/// The response that is assembled for a request from what came of its
/// questions, or `NoAnswerable` where neither an answer nor an authority
/// record came of any.
pub open spec fn assembled(request: PacketView, entries: Seq<AnswerView>) -> Result<
    PacketView,
    DnsError,
> {
    if gathered_answers(entries).len() == 0 && gathered_authorities(entries).len() == 0 {
        Err(DnsError::NoAnswerable)
    } else {
        Ok(
            counted(
                PacketView {
                    header: PacketHeader {
                        id: request.header.id,
                        flags: response_flags(
                            request.header.flags,
                            ResponseCode::NoError,
                            all_authoritive(entries),
                        ).word(),
                        qdcount: 0,
                        ancount: 0,
                        nscount: 0,
                        arcount: 0,
                    },
                    questions: request.questions,
                    answers: gathered_answers(entries),
                    authorities: gathered_authorities(entries),
                    additionals: gathered_additionals(entries),
                },
            ),
        )
    }
}

/// Adding a record once keeps a list free of equal records, keeps what was in
/// it, holds the record afterwards, and adds nothing else.
pub proof fn lemma_add_unique(list: Seq<RecordView>, record: RecordView)
    requires
        list.no_duplicates(),
    ensures
        add_unique(list, record).no_duplicates(),
        add_unique(list, record).contains(record),
        forall|other: RecordView| list.contains(other) ==> add_unique(list, record).contains(other),
        forall|other: RecordView|
            add_unique(list, record).contains(other) ==> list.contains(other) || other == record,
{
    if list.contains(record) {
    } else {
        let added = list.push(record);
        assert(added[list.len() as int] == record);
        assert forall|other: RecordView| list.contains(other) implies added.contains(other) by {
            let k = choose|k: int| 0 <= k < list.len() && list[k] == other;
            assert(added[k] == other);
        }
        assert forall|other: RecordView| added.contains(other) implies list.contains(other)
            || other == record by {
            let k = choose|k: int| 0 <= k < added.len() && added[k] == other;
            if k < list.len() {
                assert(list[k] == other);
            }
        }
        assert forall|i: int, j: int| 0 <= i < added.len() && 0 <= j < added.len() && i != j implies added[i]
            != added[j] by {
            if i < list.len() && j < list.len() {
            } else if i < list.len() {
                assert(list.contains(list[i]));
            } else {
                assert(list.contains(list[j]));
            }
        }
    }
}

/// Adding records once each keeps a list free of equal records, keeps what
/// was in it, holds every one of the records afterwards, and adds nothing else.
pub proof fn lemma_add_all_unique(list: Seq<RecordView>, more: Seq<RecordView>)
    requires
        list.no_duplicates(),
    ensures
        add_all_unique(list, more).no_duplicates(),
        forall|other: RecordView| list.contains(other) ==> add_all_unique(list, more).contains(other),
        forall|j: int| 0 <= j < more.len() ==> add_all_unique(list, more).contains(#[trigger] more[j]),
        forall|other: RecordView|
            add_all_unique(list, more).contains(other) ==> list.contains(other) || more.contains(
                other,
            ),
    decreases more.len(),
{
    if more.len() > 0 {
        let before = add_all_unique(list, more.drop_last());
        lemma_add_all_unique(list, more.drop_last());
        lemma_add_unique(before, more.last());
        let after = add_all_unique(list, more);
        assert forall|j: int| 0 <= j < more.len() implies after.contains(#[trigger] more[j]) by {
            if j < more.len() - 1 {
                assert(more.drop_last()[j] == more[j]);
                assert(before.contains(more[j]));
            }
        }
        assert forall|other: RecordView| after.contains(other) implies list.contains(other)
            || more.contains(other) by {
            if before.contains(other) {
                if !list.contains(other) {
                    let k = choose|k: int|
                        0 <= k < more.drop_last().len() && more.drop_last()[k] == other;
                    assert(more[k] == other);
                }
            } else {
                assert(more[more.len() - 1] == other);
            }
        }
    }
}

/// The authority section holds no two equal records, holds the authority
/// record of every entry that has one, and holds nothing else. So of equal
/// authority records exactly one copy is kept.
pub proof fn lemma_authorities_once(entries: Seq<AnswerView>)
    ensures
        gathered_authorities(entries).no_duplicates(),
        forall|i: int|
            0 <= i < entries.len() && (#[trigger] entries[i]).authority is Some
                ==> gathered_authorities(entries).contains(entries[i].authority.unwrap()),
        forall|record: RecordView|
            gathered_authorities(entries).contains(record) ==> exists|i: int|
                0 <= i < entries.len() && (#[trigger] entries[i]).authority == Some(record),
    decreases entries.len(),
{
    if entries.len() > 0 {
        let earlier = entries.drop_last();
        let before = gathered_authorities(earlier);
        let after = gathered_authorities(entries);
        lemma_authorities_once(earlier);
        if entries.last().authority is Some {
            lemma_add_unique(before, entries.last().authority.unwrap());
        }
        assert forall|i: int|
            0 <= i < entries.len() && (#[trigger] entries[i]).authority is Some implies after.contains(
            entries[i].authority.unwrap(),
        ) by {
            if i < entries.len() - 1 {
                assert(earlier[i] == entries[i]);
                assert(before.contains(entries[i].authority.unwrap()));
            }
        }
        assert forall|record: RecordView| after.contains(record) implies exists|i: int|
            0 <= i < entries.len() && (#[trigger] entries[i]).authority == Some(record) by {
            if before.contains(record) {
                let i = choose|i: int|
                    0 <= i < earlier.len() && (#[trigger] earlier[i]).authority == Some(record);
                assert(entries[i].authority == Some(record));
            } else {
                assert(entries[entries.len() - 1].authority == Some(record));
            }
        }
    }
}

/// The additional section holds no two equal records, holds every additional
/// record of every entry, and holds nothing else.
pub proof fn lemma_additionals_once(entries: Seq<AnswerView>)
    ensures
        gathered_additionals(entries).no_duplicates(),
        forall|i: int, j: int|
            0 <= i < entries.len() && 0 <= j < entries[i].additional.len()
                ==> gathered_additionals(entries).contains(#[trigger] entries[i].additional[j]),
        forall|record: RecordView|
            gathered_additionals(entries).contains(record) ==> exists|i: int|
                0 <= i < entries.len() && (#[trigger] entries[i]).additional.contains(record),
    decreases entries.len(),
{
    if entries.len() > 0 {
        let earlier = entries.drop_last();
        let before = gathered_additionals(earlier);
        let after = gathered_additionals(entries);
        lemma_additionals_once(earlier);
        lemma_add_all_unique(before, entries.last().additional);
        assert forall|i: int, j: int|
            0 <= i < entries.len() && 0 <= j < entries[i].additional.len() implies after.contains(
            #[trigger] entries[i].additional[j],
        ) by {
            if i < entries.len() - 1 {
                assert(earlier[i] == entries[i]);
                assert(before.contains(earlier[i].additional[j]));
            }
        }
        assert forall|record: RecordView| after.contains(record) implies exists|i: int|
            0 <= i < entries.len() && (#[trigger] entries[i]).additional.contains(record) by {
            if before.contains(record) {
                let i = choose|i: int|
                    0 <= i < earlier.len() && (#[trigger] earlier[i]).additional.contains(record);
                assert(entries[i].additional.contains(record));
            } else {
                assert(entries[entries.len() - 1].additional.contains(record));
            }
        }
    }
}

/// The answer section of entries put one list after the other is the answer
/// sections of the two lists put one after the other: no answer record is
/// dropped, whether or not an equal one came before.
pub proof fn lemma_answers_all_kept(first: Seq<AnswerView>, second: Seq<AnswerView>)
    ensures
        gathered_answers(first + second) == gathered_answers(first) + gathered_answers(second),
    decreases second.len(),
{
    if second.len() == 0 {
        assert(first + second =~= first);
        assert(gathered_answers(first) + gathered_answers(second) =~= gathered_answers(first));
    } else {
        let all = first + second;
        assert(all.drop_last() =~= first + second.drop_last());
        assert(all.last() == second.last());
        lemma_answers_all_kept(first, second.drop_last());
        assert(gathered_answers(all) =~= gathered_answers(first) + gathered_answers(second));
    }
}

/// A response that is assembled echoes the id and the questions of the
/// request and its operation code, has QR and RA set and the response code
/// NoError, and has AA set if and only if every entry was given with
/// authority. Its counts are the lengths of its sections, as far as sixteen
/// bits hold them.
pub proof fn lemma_assembled_header(request: PacketView, entries: Seq<AnswerView>)
    requires
        assembled(request, entries) is Ok,
    ensures
        assembled(request, entries).unwrap().header.id == request.header.id,
        assembled(request, entries).unwrap().questions == request.questions,
        (assembled(request, entries).unwrap().header.flags >> 11) & 7 == (request.header.flags
            >> 11) & 7,
        HeaderFlags::unpack(assembled(request, entries).unwrap().header.flags).2
            == ResponseCode::NoError,
        HeaderFlags::unpack(assembled(request, entries).unwrap().header.flags).has(Flags::QR),
        HeaderFlags::unpack(assembled(request, entries).unwrap().header.flags).has(Flags::RA),
        HeaderFlags::unpack(assembled(request, entries).unwrap().header.flags).has(Flags::AA)
            == all_authoritive(entries),
        assembled(request, entries).unwrap().answers.len() > 0 || assembled(
            request,
            entries,
        ).unwrap().authorities.len() > 0,
{
    lemma_response_flags(request.header.flags, ResponseCode::NoError, all_authoritive(entries));
}

/// Entries that hold neither an answer record nor an authority record leave
/// the answer section and the authority section empty, so that nothing can be
/// assembled from them.
pub proof fn lemma_nothing_found(request: PacketView, entries: Seq<AnswerView>)
    requires
        forall|i: int|
            0 <= i < entries.len() ==> (#[trigger] entries[i]).resource is None
                && entries[i].authority is None,
    ensures
        gathered_answers(entries).len() == 0,
        gathered_authorities(entries).len() == 0,
        assembled(request, entries) == Err::<PacketView, DnsError>(DnsError::NoAnswerable),
    decreases entries.len(),
{
    if entries.len() > 0 {
        assert(entries[entries.len() - 1].resource is None);
        assert forall|i: int| 0 <= i < entries.drop_last().len() implies (
        #[trigger] entries.drop_last()[i]).resource is None
            && entries.drop_last()[i].authority is None by {
            assert(entries.drop_last()[i] == entries[i]);
        }
        lemma_nothing_found(request, entries.drop_last());
    }
}

/// Whether a list holds a record equal to the given one.
pub fn contains_record(list: &Vec<ResourceRecord>, record: &ResourceRecord) -> (found: bool)
    ensures
        found == record_views(list@).contains(record@),
{
    let mut i: usize = 0;
    while i < list.len()
        invariant
            i <= list.len(),
            forall|k: int| 0 <= k < i ==> list@[k]@ != record@,
        decreases list.len() - i,
    {
        if list[i] == *record {
            assert(record_views(list@)[i as int] == record@);
            return true;
        }
        i += 1;
    }
    assert(!record_views(list@).contains(record@)) by {
        if record_views(list@).contains(record@) {
            let k = choose|k: int|
                0 <= k < record_views(list@).len() && record_views(list@)[k] == record@;
            assert(list@[k]@ == record@);
        }
    }
    false
}

/// Adds a copy of a record at the end of a list, unless an equal record is in
/// the list.
pub fn push_unique(list: &mut Vec<ResourceRecord>, record: &ResourceRecord)
    ensures
        record_views(final(list)@) == add_unique(record_views(old(list)@), record@),
{
    if !contains_record(list, record) {
        let copy = record.clone();
        proof {
            assert(record_views(list@.push(copy)) =~= record_views(list@).push(record@));
        }
        list.push(copy);
    }
}

/// Whether the request desires recursion: whether its RD flag is set.
pub fn recursion_desired(packet: &Packet) -> (desired: bool)
    ensures
        desired == HeaderFlags::unpack(packet@.header.flags).has(Flags::RD),
{
    HeaderFlags::from(packet.header.flags).has_flag(Flags::RD)
}

/// Assembles the response to a request from what came of its questions.
///
/// The response is given with authority only if every entry was. Authority
/// and additional records are taken once each, answer records as they come.
/// Without any answer or authority record there is no response:
/// `NoAnswerable`.
pub fn handle_packet(packet: &Packet, answers: Vec<AnswerEntry>) -> (outcome: Result<
    Packet,
    DnsError,
>)
    ensures
        match assembled(packet@, answer_views(answers@)) {
            Ok(response) => outcome matches Ok(built) && built@ == response,
            Err(error) => outcome == Err::<Packet, DnsError>(error),
        },
{
    let ghost entries = answer_views(answers@);
    let mut authoritive: bool = true;
    let mut authorities: Vec<ResourceRecord> = Vec::new();
    let mut answer_records: Vec<ResourceRecord> = Vec::new();
    let mut additional_records: Vec<ResourceRecord> = Vec::new();
    let mut i: usize = 0;
    proof {
        assert(entries.take(0) =~= Seq::<AnswerView>::empty());
        assert(record_views(authorities@) =~= Seq::<RecordView>::empty());
        assert(record_views(answer_records@) =~= Seq::<RecordView>::empty());
        assert(record_views(additional_records@) =~= Seq::<RecordView>::empty());
    }
    while i < answers.len()
        invariant
            i <= answers.len(),
            entries == answer_views(answers@),
            authoritive == all_authoritive(entries.take(i as int)),
            record_views(answer_records@) == gathered_answers(entries.take(i as int)),
            record_views(authorities@) == gathered_authorities(entries.take(i as int)),
            record_views(additional_records@) == gathered_additionals(entries.take(i as int)),
        decreases answers.len() - i,
    {
        let answer = &answers[i];
        let ghost before = entries.take(i as int);
        let ghost now = entries.take(i + 1);
        proof {
            assert(now.drop_last() =~= before);
            assert(now.last() == answer@);
            assert(all_authoritive(now) == (all_authoritive(before) && answer.authoritive)) by {
                if all_authoritive(before) && answer.authoritive {
                    assert forall|k: int| 0 <= k < now.len() implies (#[trigger] now[k]).authoritive by {
                        if k < i {
                            assert(before[k].authoritive);
                        }
                    }
                }
                if all_authoritive(now) {
                    assert(now[i as int].authoritive);
                    assert forall|k: int| 0 <= k < before.len() implies (
                    #[trigger] before[k]).authoritive by {
                        assert(now[k].authoritive);
                    }
                }
            }
        }
        authoritive = authoritive && answer.authoritive;
        match &answer.authority {
            Some(record) => {
                push_unique(&mut authorities, record);
            },
            None => {},
        }
        let ghost start = record_views(additional_records@);
        let ghost more = record_views(answer.additional@);
        let mut j: usize = 0;
        assert(more.take(0) =~= Seq::<RecordView>::empty());
        while j < answer.additional.len()
            invariant
                j <= answer.additional.len(),
                more == record_views(answer.additional@),
                record_views(additional_records@) == add_all_unique(start, more.take(j as int)),
            decreases answer.additional.len() - j,
        {
            proof {
                assert(more.take(j + 1).drop_last() =~= more.take(j as int));
                assert(more.take(j + 1).last() == answer.additional@[j as int]@);
            }
            push_unique(&mut additional_records, &answer.additional[j]);
            j += 1;
        }
        assert(more.take(j as int) =~= more);
        match &answer.resource {
            Some(record) => {
                let copy = record.clone();
                proof {
                    assert(record_views(answer_records@.push(copy)) =~= record_views(
                        answer_records@,
                    ).push(record@));
                }
                answer_records.push(copy);
            },
            None => {},
        }
        i += 1;
    }
    assert(entries.take(i as int) =~= entries);
    if answer_records.len() > 0 || authorities.len() > 0 {
        let flags = respond_flags(packet.header.flags, ResponseCode::NoError, authoritive);
        let ghost questions = question_views(packet.questions@);
        proof {
            assert(Seq::<QuestionView>::empty() + questions =~= questions);
            assert(Seq::<RecordView>::empty() + record_views(answer_records@) =~= record_views(
                answer_records@,
            ));
            assert(Seq::<RecordView>::empty() + record_views(authorities@) =~= record_views(
                authorities@,
            ));
            assert(Seq::<RecordView>::empty() + record_views(additional_records@)
                =~= record_views(additional_records@));
        }
        Ok(
            PacketBuilder::new().with_flags(flags).with_id(packet.header.id).with_qentries(
                clone_questions(&packet.questions),
            ).with_aentries(answer_records).with_authentries(authorities).with_addentries(
                additional_records,
            ).build(),
        )
    } else {
        Err(DnsError::NoAnswerable)
    }
}

} // verus!

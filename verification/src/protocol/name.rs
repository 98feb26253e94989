//! Domain names on the wire: labels, their encoding, and the reading of a
//! name out of a message, compression pointers included.

use crate::error::DnsError;
use vstd::prelude::*;
use vstd::slice::slice_subrange;
use vstd::utf8::{decode_utf8, encode_utf8, valid_utf8};

verus! {

/// The byte that parts the labels of a written name: a full stop.
pub const DOT: u8 = 0x2E;

/// The smallest length byte that starts a compression pointer: its two high
/// bits are set.
pub const POINTER_MARK: u8 = 0xC0;

/// A name without one leading and one trailing dot.
pub open spec fn strip_dots(name: Seq<u8>) -> Seq<u8> {
    let head = if name.len() > 0 && name[0] == DOT {
        name.skip(1)
    } else {
        name
    };
    if head.len() > 0 && head.last() == DOT {
        head.drop_last()
    } else {
        head
    }
}

/// The labels of `name` from `start` on, where no dot stands between `start`
/// and `at`.
pub open spec fn split_from(name: Seq<u8>, start: int, at: int) -> Seq<Seq<u8>>
    decreases name.len() - at,
{
    if at >= name.len() {
        seq![name.subrange(start, name.len() as int)]
    } else if name[at] == DOT {
        seq![name.subrange(start, at)] + split_from(name, at + 1, at + 1)
    } else {
        split_from(name, start, at + 1)
    }
}

/// The labels of a written name: the runs of bytes between its dots. A name
/// with n dots has n + 1 labels, some of them possibly empty.
pub open spec fn split_labels(name: Seq<u8>) -> Seq<Seq<u8>> {
    split_from(name, 0, 0)
}

/// Labels written out with a dot between neighbours.
pub open spec fn join_labels(labels: Seq<Seq<u8>>) -> Seq<u8>
    decreases labels.len(),
{
    if labels.len() == 0 {
        Seq::<u8>::empty()
    } else if labels.len() == 1 {
        labels[0]
    } else {
        labels[0] + seq![DOT] + join_labels(labels.skip(1))
    }
}

/// Labels on the wire: each as a length byte and its bytes. A length that
/// does not fit the byte is cut to its low eight bits.
pub open spec fn wire_labels(labels: Seq<Seq<u8>>) -> Seq<u8>
    decreases labels.len(),
{
    if labels.len() == 0 {
        Seq::<u8>::empty()
    } else {
        seq![(labels[0].len() % 256) as u8] + labels[0] + wire_labels(labels.skip(1))
    }
}

/// Whether one of the labels is empty.
pub open spec fn has_empty_label(labels: Seq<Seq<u8>>) -> bool {
    exists|i: int| 0 <= i < labels.len() && (#[trigger] labels[i]).len() == 0
}

/// The wire form of a written name. One leading and one trailing dot are
/// dropped first. The empty name and the lone dot are the root, a single zero
/// byte. Two dots and nothing else are refused, and so is every name with an
/// empty label; every other name is its labels followed by a zero byte.
pub open spec fn encode_name(name: Seq<u8>) -> Result<Seq<u8>, DnsError> {
    let stripped = strip_dots(name);
    if stripped.len() == 0 {
        if name.len() <= 1 {
            Ok(seq![0u8])
        } else {
            Err(DnsError::InvalidName)
        }
    } else if has_empty_label(split_labels(stripped)) {
        Err(DnsError::InvalidName)
    } else {
        Ok(wire_labels(split_labels(stripped)) + seq![0u8])
    }
}

/// Whether a length byte starts a compression pointer.
pub open spec fn is_pointer(byte: u8) -> bool {
    byte >= POINTER_MARK
}

/// The offset that a pointer names: the low six bits of its first byte, then
/// its second byte.
pub open spec fn pointer_target(first: u8, second: u8) -> int {
    (first - POINTER_MARK) * 256 + second
}

/// How many offsets of a buffer of the given length are not yet visited.
pub open spec fn unvisited(len: nat, visited: Set<int>) -> nat {
    Set::new(|i: int| 0 <= i < len && !visited.contains(i)).len()
}

/// Visiting one more offset inside the buffer leaves fewer unvisited.
pub proof fn lemma_visit_decreases(len: nat, visited: Set<int>, target: int)
    requires
        0 <= target < len,
        !visited.contains(target),
    ensures
        unvisited(len, visited.insert(target)) < unvisited(len, visited),
{
    let before = Set::new(|i: int| 0 <= i < len && !visited.contains(i));
    let after = Set::new(|i: int| 0 <= i < len && !visited.insert(target).contains(i));
    vstd::set_lib::lemma_int_range(0, len as int);
    assert(before.subset_of(vstd::set_lib::set_int_range(0, len as int)));
    vstd::set_lib::lemma_len_subset(before, vstd::set_lib::set_int_range(0, len as int));
    assert(before.contains(target));
    assert(after =~= before.remove(target));
}

/// The labels of the name that is read at an offset of a message, given the
/// offsets at which reading has started so far.
///
/// A zero byte ends the name. A byte below `POINTER_MARK` is the length of a
/// label, which follows it. Any other byte starts a pointer, and reading goes
/// on at the offset that it names; an offset that was visited before ends the
/// reading with `MalformedCompression`. Whatever lies beyond the end of the
/// buffer ends it with `Truncated`.
pub open spec fn read_labels(buffer: Seq<u8>, at: int, visited: Set<int>) -> Result<
    Seq<Seq<u8>>,
    DnsError,
>
    decreases unvisited(buffer.len(), visited), buffer.len() - at,
{
    if at < 0 || at >= buffer.len() {
        Err(DnsError::Truncated)
    } else if buffer[at] == 0 {
        Ok(Seq::<Seq<u8>>::empty())
    } else if is_pointer(buffer[at]) {
        if at + 1 >= buffer.len() {
            Err(DnsError::Truncated)
        } else {
            let target = pointer_target(buffer[at], buffer[at + 1]);
            if visited.contains(target) {
                Err(DnsError::MalformedCompression)
            } else if target >= buffer.len() {
                Err(DnsError::Truncated)
            } else {
                proof {
                    lemma_visit_decreases(buffer.len(), visited, target);
                }
                read_labels(buffer, target, visited.insert(target))
            }
        }
    } else if at + 1 + buffer[at] > buffer.len() {
        Err(DnsError::Truncated)
    } else {
        match read_labels(buffer, at + 1 + buffer[at], visited) {
            Ok(rest) => Ok(seq![buffer.subrange(at + 1, at + 1 + buffer[at])] + rest),
            Err(error) => Err(error),
        }
    }
}

/// Where the name that starts at an offset ends in its own structure: after
/// its zero byte, or after the two bytes of its first pointer. What a pointer
/// leads to is never counted.
pub open spec fn name_end(buffer: Seq<u8>, at: int) -> int
    decreases buffer.len() - at,
{
    if at < 0 || at >= buffer.len() {
        at
    } else if buffer[at] == 0 {
        at + 1
    } else if is_pointer(buffer[at]) {
        at + 2
    } else if at + 1 + buffer[at] > buffer.len() {
        at
    } else {
        name_end(buffer, at + 1 + buffer[at])
    }
}

/// The name that is read at an offset of a message, with the offset at which
/// its structure goes on. The labels are joined by dots, and together must be
/// valid UTF-8, else the name is refused with `InvalidName`.
pub open spec fn name_at(buffer: Seq<u8>, at: int) -> Result<(Seq<char>, int), DnsError> {
    match read_labels(buffer, at, set![at]) {
        Ok(labels) => if valid_utf8(join_labels(labels)) {
            Ok((decode_utf8(join_labels(labels)), name_end(buffer, at)))
        } else {
            Err(DnsError::InvalidName)
        },
        Err(error) => Err(error),
    }
}

/// Adding a label at the end of a list adds its length byte and its bytes at
/// the end of the wire form.
pub proof fn lemma_wire_labels_push(labels: Seq<Seq<u8>>, label: Seq<u8>)
    ensures
        wire_labels(labels.push(label)) == wire_labels(labels) + seq![(label.len() % 256) as u8]
            + label,
    decreases labels.len(),
{
    if labels.len() == 0 {
        assert(labels.push(label).skip(1) =~= Seq::<Seq<u8>>::empty());
        assert(labels.push(label)[0] == label);
        assert(wire_labels(labels.push(label).skip(1)) =~= Seq::<u8>::empty());
        assert(wire_labels(labels) =~= Seq::<u8>::empty());
        assert(wire_labels(labels.push(label)) =~= wire_labels(labels) + seq![(label.len()
            % 256) as u8] + label);
    } else {
        assert(labels.push(label).skip(1) =~= labels.skip(1).push(label));
        lemma_wire_labels_push(labels.skip(1), label);
        assert(wire_labels(labels.push(label)) =~= wire_labels(labels) + seq![(label.len()
            % 256) as u8] + label);
    }
}

/// Adding a label at the end of a list adds a dot, unless the list was empty,
/// and the label at the end of the joined name.
pub proof fn lemma_join_labels_push(labels: Seq<Seq<u8>>, label: Seq<u8>)
    ensures
        join_labels(labels.push(label)) == if labels.len() == 0 {
            label
        } else {
            join_labels(labels) + seq![DOT] + label
        },
    decreases labels.len(),
{
    if labels.len() == 0 {
    } else if labels.len() == 1 {
        assert(labels.push(label).skip(1) =~= seq![label]);
        assert(join_labels(seq![label]) == label);
    } else {
        assert(labels.push(label).skip(1) =~= labels.skip(1).push(label));
        lemma_join_labels_push(labels.skip(1), label);
        assert(join_labels(labels.push(label)) =~= join_labels(labels) + seq![DOT] + label);
    }
}

/// Reading a name gives the same labels when one more offset counts as
/// visited, if that offset holds a pointer to an offset that is visited
/// already: a reading that succeeds never comes by such a pointer.
pub proof fn lemma_read_past_pointer(buffer: Seq<u8>, at: int, visited: Set<int>, pointer: int)
    requires
        0 <= pointer,
        pointer + 1 < buffer.len(),
        is_pointer(buffer[pointer]),
        visited.contains(pointer_target(buffer[pointer], buffer[pointer + 1])),
        read_labels(buffer, at, visited) is Ok,
    ensures
        read_labels(buffer, at, visited.insert(pointer)) == read_labels(buffer, at, visited),
    decreases unvisited(buffer.len(), visited), buffer.len() - at,
{
    if at < 0 || at >= buffer.len() {
    } else if buffer[at] == 0 {
    } else if is_pointer(buffer[at]) {
        let target = pointer_target(buffer[at], buffer[at + 1]);
        lemma_visit_decreases(buffer.len(), visited, target);
        if target == pointer {
            assert(visited.insert(target).contains(
                pointer_target(buffer[pointer], buffer[pointer + 1]),
            ));
            assert(read_labels(buffer, pointer, visited.insert(target)) is Err);
        }
        lemma_read_past_pointer(buffer, target, visited.insert(target), pointer);
        assert(visited.insert(target).insert(pointer) =~= visited.insert(pointer).insert(target));
    } else {
        lemma_read_past_pointer(buffer, at + 1 + buffer[at], visited, pointer);
    }
}

/// A name that is referred to by a pointer reads as the same name as where
/// it stands: if a name can be read at the offset that a pointer names, then
/// at the pointer the same name is read, and the structure that holds the
/// pointer goes on two bytes behind the start of the pointer.
pub proof fn lemma_pointer_reads_target(buffer: Seq<u8>, pointer: int)
    requires
        0 <= pointer,
        pointer + 1 < buffer.len(),
        is_pointer(buffer[pointer]),
        name_at(buffer, pointer_target(buffer[pointer], buffer[pointer + 1])) is Ok,
    ensures
        name_at(buffer, pointer) == Ok::<(Seq<char>, int), DnsError>(
            (
                name_at(buffer, pointer_target(buffer[pointer], buffer[pointer + 1])).unwrap().0,
                pointer + 2,
            ),
        ),
{
    let target = pointer_target(buffer[pointer], buffer[pointer + 1]);
    assert(read_labels(buffer, target, set![target]) is Ok);
    assert(0 <= target < buffer.len());
    if target == pointer {
        assert(set![pointer].contains(target));
        assert(read_labels(buffer, pointer, set![pointer]) is Err);
    }
    assert(!set![pointer].contains(target));
    lemma_read_past_pointer(buffer, target, set![target], pointer);
    assert(set![target].insert(pointer) =~= set![pointer].insert(target));
    assert(read_labels(buffer, pointer, set![pointer]) == read_labels(
        buffer,
        target,
        set![pointer].insert(target),
    ));
}

/// Two pointers that name each other's offsets, or one that names its own,
/// are refused as malformed compression.
pub proof fn lemma_pointer_cycle_refused(buffer: Seq<u8>, first: int, second: int)
    requires
        0 <= first,
        first + 1 < buffer.len(),
        0 <= second,
        second + 1 < buffer.len(),
        is_pointer(buffer[first]),
        is_pointer(buffer[second]),
        pointer_target(buffer[first], buffer[first + 1]) == second,
        pointer_target(buffer[second], buffer[second + 1]) == first,
    ensures
        name_at(buffer, first) == Err::<(Seq<char>, int), DnsError>(DnsError::MalformedCompression),
{
    if first != second {
        assert(!set![first].contains(second));
        assert(set![first].insert(second).contains(first));
        assert(read_labels(buffer, second, set![first].insert(second)) == Err::<
            Seq<Seq<u8>>,
            DnsError,
        >(DnsError::MalformedCompression));
    }
}

/// Whether every label is from one to sixty-three bytes long, so that its
/// length byte is its length and is taken neither for the end of the name
/// nor for a pointer.
pub open spec fn plain_labels(labels: Seq<Seq<u8>>) -> bool {
    forall|i: int| 0 <= i < labels.len() ==> 1 <= (#[trigger] labels[i]).len() <= 63
}

/// Whether a name is written as it is read back: it is empty, the root, or
/// each of its labels is from one to sixty-three bytes long. Such a name
/// neither starts nor ends with a dot.
pub open spec fn canonical_name(name: Seq<u8>) -> bool {
    name.len() == 0 || plain_labels(split_labels(name))
}

/// The labels that a canonical name is encoded as: none for the root.
pub open spec fn canonical_labels(name: Seq<u8>) -> Seq<Seq<u8>> {
    if name.len() == 0 {
        Seq::empty()
    } else {
        split_labels(name)
    }
}

/// Where a name ends with a dot, its last label is empty.
pub proof fn lemma_trailing_dot_label(name: Seq<u8>, start: int, at: int)
    requires
        0 <= start <= at <= name.len(),
        name.len() > 0,
        name.last() == DOT,
        forall|k: int| start <= k < at ==> name[k] != DOT,
    ensures
        split_from(name, start, at).last().len() == 0,
    decreases name.len() - at,
{
    if at >= name.len() {
        if start < name.len() {
            assert(name[name.len() - 1] == DOT);
        }
    } else if name[at] == DOT {
        let rest = split_from(name, at + 1, at + 1);
        lemma_split_nonempty(name, at + 1, at + 1);
        lemma_trailing_dot_label(name, at + 1, at + 1);
        assert((seq![name.subrange(start, at)] + rest).last() == rest.last());
    } else {
        lemma_trailing_dot_label(name, start, at + 1);
    }
}

/// A canonical name is encoded as its labels and a zero byte, without a
/// failure and without the loss of a dot.
pub proof fn lemma_canonical_encodes(name: Seq<u8>)
    requires
        canonical_name(name),
    ensures
        encode_name(name) == Ok::<Seq<u8>, DnsError>(
            wire_labels(canonical_labels(name)) + seq![0u8],
        ),
{
    if name.len() == 0 {
        assert(wire_labels(Seq::<Seq<u8>>::empty()) + seq![0u8] =~= seq![0u8]);
    } else {
        let labels = split_labels(name);
        lemma_split_nonempty(name, 0, 0);
        if name[0] == DOT {
            assert(labels[0] == name.subrange(0, 0));
            assert(labels[0].len() == 0);
        }
        if name.last() == DOT {
            lemma_trailing_dot_label(name, 0, 0);
            assert(labels[labels.len() - 1].len() == 0);
        }
        assert(strip_dots(name) == name);
        assert(!has_empty_label(labels));
    }
}

/// Labels that were written to a buffer without a pointer are read back as
/// they were written, whatever was visited, and the name ends behind their
/// zero byte.
pub proof fn lemma_read_wire_labels(
    buffer: Seq<u8>,
    at: int,
    visited: Set<int>,
    labels: Seq<Seq<u8>>,
)
    requires
        0 <= at,
        plain_labels(labels),
        at + wire_labels(labels).len() + 1 <= buffer.len(),
        buffer.subrange(at, at + wire_labels(labels).len() + 1) == wire_labels(labels) + seq![
            0u8,
        ],
    ensures
        read_labels(buffer, at, visited) == Ok::<Seq<Seq<u8>>, DnsError>(labels),
        name_end(buffer, at) == at + wire_labels(labels).len() + 1,
    decreases labels.len(),
{
    let wire = wire_labels(labels) + seq![0u8];
    let window = buffer.subrange(at, at + wire.len());
    assert(buffer[at] == window[0]);
    if labels.len() == 0 {
        assert(wire[0] == 0u8);
        assert(labels =~= Seq::<Seq<u8>>::empty());
    } else {
        let first = labels[0];
        let rest = labels.skip(1);
        let size = first.len() as int;
        assert(1 <= size <= 63);
        assert(wire[0] == (size % 256) as u8);
        assert(buffer[at] == size);
        assert(buffer.subrange(at + 1, at + 1 + size) =~= first) by {
            assert forall|k: int| 0 <= k < size implies buffer.subrange(at + 1, at + 1 + size)[k]
                == first[k] by {
                assert(window[k + 1] == wire[k + 1]);
            }
        }
        assert(plain_labels(rest)) by {
            assert forall|i: int| 0 <= i < rest.len() implies 1 <= (#[trigger] rest[i]).len()
                <= 63 by {
                assert(rest[i] == labels[i + 1]);
            }
        }
        assert(buffer.subrange(at + 1 + size, at + 1 + size + wire_labels(rest).len() + 1)
            =~= wire_labels(rest) + seq![0u8]) by {
            assert forall|k: int| 0 <= k < wire_labels(rest).len() + 1 implies buffer.subrange(
                at + 1 + size,
                at + 1 + size + wire_labels(rest).len() + 1,
            )[k] == (wire_labels(rest) + seq![0u8])[k] by {
                assert(window[k + 1 + size] == wire[k + 1 + size]);
            }
        }
        lemma_read_wire_labels(buffer, at + 1 + size, visited, rest);
        assert(seq![first] + rest =~= labels);
    }
}

/// A canonical name that was written to a buffer is read back as it was
/// written, and is found to end where its bytes end.
pub proof fn lemma_name_round_trip(name: Seq<char>, buffer: Seq<u8>, at: int)
    requires
        canonical_name(encode_utf8(name)),
        0 <= at,
        at + encode_name(encode_utf8(name)).unwrap().len() <= buffer.len(),
        buffer.subrange(at, at + encode_name(encode_utf8(name)).unwrap().len()) == encode_name(
            encode_utf8(name),
        ).unwrap(),
    ensures
        name_at(buffer, at) == Ok::<(Seq<char>, int), DnsError>(
            (name, at + encode_name(encode_utf8(name)).unwrap().len()),
        ),
{
    let bytes = encode_utf8(name);
    let labels = canonical_labels(bytes);
    lemma_canonical_encodes(bytes);
    assert(plain_labels(labels));
    lemma_read_wire_labels(buffer, at, set![at], labels);
    assert(join_labels(labels) =~= bytes) by {
        if bytes.len() > 0 {
            lemma_join_split(bytes, 0, 0);
            assert(bytes.subrange(0, bytes.len() as int) =~= bytes);
        }
    }
    vstd::utf8::encode_utf8_valid_utf8(name);
    vstd::utf8::encode_utf8_decode_utf8(name);
}

/// Labels on the wire take one byte more than the same labels joined by
/// dots: a length byte each, in place of the dots between them.
pub proof fn lemma_wire_length(labels: Seq<Seq<u8>>)
    requires
        labels.len() > 0,
    ensures
        wire_labels(labels).len() == join_labels(labels).len() + 1,
    decreases labels.len(),
{
    if labels.len() == 1 {
        assert(labels.skip(1) =~= Seq::<Seq<u8>>::empty());
        assert(wire_labels(labels.skip(1)).len() == 0);
    } else {
        lemma_wire_length(labels.skip(1));
    }
}

/// A canonical name other than the root takes two bytes more on the wire
/// than written with dots.
pub proof fn lemma_encoded_length(name: Seq<u8>)
    requires
        canonical_name(name),
        name.len() > 0,
    ensures
        encode_name(name).unwrap().len() == name.len() + 2,
{
    lemma_canonical_encodes(name);
    lemma_split_nonempty(name, 0, 0);
    lemma_wire_length(split_labels(name));
    lemma_join_split(name, 0, 0);
    assert(name.subrange(0, name.len() as int) =~= name);
}

/// `String::from_utf8` of std: it succeeds exactly on valid UTF-8, and the
/// string it returns is made of the bytes it was given.
#[verifier::external_body]
fn string_from_utf8(bytes: Vec<u8>) -> (outcome: Result<String, std::string::FromUtf8Error>)
    ensures
        outcome is Ok <==> valid_utf8(bytes@),
        outcome matches Ok(text) ==> encode_utf8(text@) == bytes@,
{
    String::from_utf8(bytes)
}

/// The error of `String::from_utf8`. It is carried through unread.
#[verifier::external_type_specification]
#[verifier::external_body]
pub struct ExFromUtf8Error(std::string::FromUtf8Error);

/// The text that bytes spell in UTF-8, or `InvalidName` where they spell none.
pub fn text_of(bytes: Vec<u8>) -> (outcome: Result<String, DnsError>)
    ensures
        valid_utf8(bytes@) ==> (outcome matches Ok(text) && text@ == decode_utf8(bytes@)
            && encode_utf8(text@) == bytes@),
        !valid_utf8(bytes@) ==> outcome == Err::<String, DnsError>(DnsError::InvalidName),
{
    match string_from_utf8(bytes) {
        Ok(text) => {
            proof {
                vstd::utf8::encode_utf8_decode_utf8(text@);
            }
            Ok(text)
        },
        Err(_) => Err(DnsError::InvalidName),
    }
}

/// Whether an offset is among those visited.
fn was_visited(visited: &Vec<usize>, offset: usize) -> (found: bool)
    ensures
        found == visited@.contains(offset),
{
    let mut i: usize = 0;
    while i < visited.len()
        invariant
            i <= visited.len(),
            forall|k: int| 0 <= k < i ==> visited@[k] != offset,
        decreases visited.len() - i,
    {
        if visited[i] == offset {
            return true;
        }
        i += 1;
    }
    false
}

/// What reading goes on to give once `done` has been read.
pub open spec fn after_labels(done: Seq<Seq<u8>>, rest: Result<Seq<Seq<u8>>, DnsError>) -> Result<
    Seq<Seq<u8>>,
    DnsError,
> {
    match rest {
        Ok(labels) => Ok(done + labels),
        Err(error) => Err(error),
    }
}

/// Reads the name at an offset of a message: the name, and the offset at
/// which the structure that holds the name goes on.
pub fn decode_name(buffer: &[u8], start: usize) -> (outcome: Result<(String, usize), DnsError>)
    ensures
        match name_at(buffer@, start as int) {
            Ok((name, end)) => outcome matches Ok((text, next)) && text@ == name && next == end,
            Err(error) => outcome == Err::<(String, usize), DnsError>(error),
        },
{
    let mut name: Vec<u8> = Vec::new();
    let mut visited: Vec<usize> = Vec::new();
    visited.push(start);
    let mut at: usize = start;
    let mut end: Option<usize> = None;
    let ghost mut done: Seq<Seq<u8>> = Seq::empty();
    let ghost mut seen: Set<int> = set![start as int];
    proof {
        assert(visited@ =~= seq![start]);
        assert(visited@[0] == start);
    }
    loop
        invariant
            seen.finite(),
            forall|i: int| seen.contains(i) <==> 0 <= i <= usize::MAX && visited@.contains(i as usize),
            read_labels(buffer@, start as int, set![start as int]) == after_labels(
                done,
                read_labels(buffer@, at as int, seen),
            ),
            name@ == join_labels(done),
            forall|i: int| 0 <= i < done.len() ==> (#[trigger] done[i]).len() > 0,
            match end {
                Some(next) => name_end(buffer@, start as int) == next,
                None => name_end(buffer@, start as int) == name_end(buffer@, at as int),
            },
        decreases unvisited(buffer@.len(), seen), buffer@.len() - at,
    {
        if at >= buffer.len() {
            return Err(DnsError::Truncated);
        }
        let length: u8 = buffer[at];
        if length == 0 {
            let next: usize = match end {
                Some(next) => next,
                None => at + 1,
            };
            assert(done + Seq::<Seq<u8>>::empty() =~= done);
            return match text_of(name) {
                Ok(text) => Ok((text, next)),
                Err(error) => Err(error),
            };
        } else if length >= POINTER_MARK {
            if at + 1 >= buffer.len() {
                return Err(DnsError::Truncated);
            }
            let target: usize = (length - POINTER_MARK) as usize * 256 + buffer[at + 1] as usize;
            if was_visited(&visited, target) {
                return Err(DnsError::MalformedCompression);
            }
            if target >= buffer.len() {
                return Err(DnsError::Truncated);
            }
            if end.is_none() {
                end = Some(at + 2);
            }
            proof {
                lemma_visit_decreases(buffer@.len(), seen, target as int);
                assert forall|i: int|
                    seen.insert(target as int).contains(i) <==> 0 <= i <= usize::MAX
                        && visited@.push(target).contains(i as usize) by {
                    if seen.insert(target as int).contains(i) {
                        if i == target {
                            assert(visited@.push(target)[visited@.len() as int] == target);
                        } else {
                            let k = choose|k: int| 0 <= k < visited@.len() && visited@[k] == i as usize;
                            assert(visited@.push(target)[k] == i as usize);
                        }
                    }
                    if 0 <= i <= usize::MAX && visited@.push(target).contains(i as usize) {
                        let k = choose|k: int|
                            0 <= k < visited@.push(target).len() && visited@.push(target)[k]
                                == i as usize;
                        if k < visited@.len() {
                            assert(visited@[k] == i as usize);
                        }
                    }
                }
                seen = seen.insert(target as int);
            }
            visited.push(target);
            at = target;
        } else {
            let size: usize = length as usize;
            if size > buffer.len() - at - 1 {
                return Err(DnsError::Truncated);
            }
            let label = slice_subrange(buffer, at + 1, at + 1 + size);
            proof {
                lemma_join_labels_push(done, label@);
                assert(done + (seq![label@] + match read_labels(
                    buffer@,
                    at + 1 + size,
                    seen,
                ) {
                    Ok(rest) => rest,
                    Err(_) => Seq::<Seq<u8>>::empty(),
                }) =~= done.push(label@) + match read_labels(buffer@, at + 1 + size, seen) {
                    Ok(rest) => rest,
                    Err(_) => Seq::<Seq<u8>>::empty(),
                });
            }
            if name.len() > 0 {
                name.push(DOT);
            }
            crate::protocol::wire::push_bytes(&mut name, label);
            proof {
                if done.len() > 0 {
                    assert(done[0].len() > 0);
                    lemma_join_nonempty(done);
                }
                done = done.push(label@);
            }
            at = at + 1 + size;
        }
    }
}

/// A name always has a first label.
pub proof fn lemma_split_nonempty(name: Seq<u8>, start: int, at: int)
    requires
        0 <= start <= at <= name.len(),
    ensures
        split_from(name, start, at).len() >= 1,
    decreases name.len() - at,
{
    if at < name.len() && name[at] != DOT {
        lemma_split_nonempty(name, start, at + 1);
    }
}

/// Labels joined again are the name they were split from.
pub proof fn lemma_join_split(name: Seq<u8>, start: int, at: int)
    requires
        0 <= start <= at <= name.len(),
    ensures
        join_labels(split_from(name, start, at)) == name.subrange(start, name.len() as int),
    decreases name.len() - at,
{
    if at >= name.len() {
    } else if name[at] == DOT {
        let rest = split_from(name, at + 1, at + 1);
        let all = seq![name.subrange(start, at)] + rest;
        lemma_split_nonempty(name, at + 1, at + 1);
        lemma_join_split(name, at + 1, at + 1);
        assert(all.skip(1) =~= rest);
        assert(all[0] == name.subrange(start, at));
        assert(join_labels(all) =~= name.subrange(start, name.len() as int));
    } else {
        lemma_join_split(name, start, at + 1);
    }
}

/// Labels of which the first is not empty join to a name that is not empty.
pub proof fn lemma_join_nonempty(labels: Seq<Seq<u8>>)
    requires
        labels.len() > 0,
        labels[0].len() > 0,
    ensures
        join_labels(labels).len() > 0,
{
}

} // verus!

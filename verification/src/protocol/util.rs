//! Helpers on written domain names.

use crate::error::DnsError;
use crate::protocol::name::{
    encode_name, has_empty_label, join_labels, lemma_join_split, lemma_wire_labels_push,
    split_from, split_labels, strip_dots, text_of, wire_labels, DOT,
};
use crate::protocol::wire::push_bytes;
use vstd::prelude::*;
use vstd::slice::slice_subrange;
use vstd::utf8::{encode_utf8, valid_utf8};

verus! {

/// Encodes the bytes of a written name as labels on the wire.
pub fn encode_name_bytes(name: &[u8]) -> (outcome: Result<Vec<u8>, DnsError>)
    ensures
        match encode_name(name@) {
            Ok(wire) => outcome matches Ok(bytes) && bytes@ == wire,
            Err(error) => outcome == Err::<Vec<u8>, DnsError>(error),
        },
{
    let len: usize = name.len();
    let from: usize = if len > 0 && name[0] == DOT {
        1
    } else {
        0
    };
    let to: usize = if len > from && name[len - 1] == DOT {
        len - 1
    } else {
        len
    };
    let stripped = slice_subrange(name, from, to);
    assert(stripped@ =~= strip_dots(name@));
    if stripped.len() == 0 {
        if len <= 1 {
            let mut root: Vec<u8> = Vec::new();
            root.push(0);
            assert(root@ =~= seq![0u8]);
            return Ok(root);
        }
        return Err(DnsError::InvalidName);
    }
    let mut out: Vec<u8> = Vec::new();
    let mut start: usize = 0;
    let mut at: usize = 0;
    let ghost mut done: Seq<Seq<u8>> = Seq::empty();
    while at < stripped.len()
        invariant
            start <= at <= stripped.len(),
            stripped@ == strip_dots(name@),
            split_labels(stripped@) == done + split_from(stripped@, start as int, at as int),
            forall|i: int| 0 <= i < done.len() ==> (#[trigger] done[i]).len() > 0,
            out@ == wire_labels(done),
        decreases stripped.len() - at,
    {
        if stripped[at] == DOT {
            let ghost label = stripped@.subrange(start as int, at as int);
            let ghost rest = split_from(stripped@, at + 1, at + 1);
            assert(done + (seq![label] + rest) =~= done.push(label) + rest);
            if at == start {
                proof {
                    let all = split_labels(stripped@);
                    assert(all[done.len() as int] == label);
                    assert(has_empty_label(all));
                }
                return Err(DnsError::InvalidName);
            }
            out.push(((at - start) % 256) as u8);
            push_bytes(&mut out, slice_subrange(stripped, start, at));
            proof {
                lemma_wire_labels_push(done, label);
                done = done.push(label);
            }
            start = at + 1;
        }
        at += 1;
    }
    let ghost label = stripped@.subrange(start as int, stripped@.len() as int);
    assert(split_labels(stripped@) =~= done.push(label));
    if start == stripped.len() {
        proof {
            let all = split_labels(stripped@);
            assert(all[done.len() as int] == label);
            assert(has_empty_label(all));
        }
        return Err(DnsError::InvalidName);
    }
    out.push(((stripped.len() - start) % 256) as u8);
    push_bytes(&mut out, slice_subrange(stripped, start, stripped.len()));
    proof {
        lemma_wire_labels_push(done, label);
    }
    out.push(0);
    Ok(out)
}

/// Encodes a written name as labels on the wire. One leading and one trailing
/// dot are dropped; the empty name and the lone dot are the root.
pub fn encode_domain(name: String) -> (outcome: Result<Vec<u8>, DnsError>)
    ensures
        match encode_name(encode_utf8(name@)) {
            Ok(wire) => outcome matches Ok(bytes) && bytes@ == wire,
            Err(error) => outcome == Err::<Vec<u8>, DnsError>(error),
        },
{
    encode_name_bytes(name.as_str().as_bytes())
}

/// The zone above a written name: the name without its leftmost label and the
/// dot behind it, or a lone dot, the root, where nothing is left.
pub open spec fn parent_zone(name: Seq<u8>) -> Seq<u8> {
    let rest = join_labels(split_labels(name).skip(1));
    if rest.len() == 0 {
        seq![DOT]
    } else {
        rest
    }
}

/// The zone above a name.
pub fn get_upzone(name: String) -> (zone: String)
    ensures
        encode_utf8(zone@) == parent_zone(encode_utf8(name@)),
{
    let bytes = name.as_str().as_bytes();
    let mut at: usize = 0;
    while at < bytes.len() && bytes[at] != DOT
        invariant
            at <= bytes.len(),
            split_labels(bytes@) == split_from(bytes@, 0, at as int),
        decreases bytes.len() - at,
    {
        at += 1;
    }
    let mut rest: Vec<u8> = Vec::new();
    if at < bytes.len() {
        push_bytes(&mut rest, slice_subrange(bytes, at + 1, bytes.len()));
    }
    proof {
        let labels = split_labels(bytes@);
        if at < bytes.len() {
            let tail = split_from(bytes@, at + 1, at + 1);
            assert(labels.skip(1) =~= tail);
            lemma_join_split(bytes@, at + 1, at + 1);
            assert(rest@ =~= bytes@.subrange(at + 1, bytes@.len() as int));
            vstd::utf8::encode_utf8_valid_utf8(name@);
            vstd::utf8::is_char_boundary_iff_not_is_continuation_byte(bytes@, at as int);
            vstd::utf8::valid_utf8_split(bytes@, at as int);
            let from_dot = bytes@.subrange(at as int, bytes@.len() as int);
            assert(vstd::utf8::pop_first_scalar(from_dot) =~= rest@);
            assert(valid_utf8(rest@));
        } else {
            assert(labels.skip(1) =~= Seq::<Seq<u8>>::empty());
        }
    }
    if rest.len() == 0 {
        proof {
            reveal_strlit(".");
            vstd::utf8::is_ascii_chars_encode_utf8("."@);
            assert(encode_utf8("."@) =~= seq![DOT]);
        }
        return ".".to_string();
    }
    match text_of(rest) {
        Ok(zone) => zone,
        Err(_) => ".".to_string(),
    }
}

} // verus!

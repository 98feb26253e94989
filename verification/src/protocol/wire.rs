//! Big-endian integers, as the wire format lays them out.

use vstd::prelude::*;

verus! {

/// The two bytes of a 16-bit integer, high byte first.
pub open spec fn be16(value: u16) -> Seq<u8> {
    seq![(value >> 8) as u8, (value & 0xff) as u8]
}

/// The 16-bit integer that two bytes spell, high byte first.
pub open spec fn from_be16(high: u8, low: u8) -> u16 {
    ((high as u16) << 8) | (low as u16)
}

/// The four bytes of a 32-bit integer, highest byte first.
pub open spec fn be32(value: u32) -> Seq<u8> {
    seq![
        (value >> 24) as u8,
        ((value >> 16) & 0xff) as u8,
        ((value >> 8) & 0xff) as u8,
        (value & 0xff) as u8,
    ]
}

/// The 32-bit integer that four bytes spell, highest byte first.
pub open spec fn from_be32(b0: u8, b1: u8, b2: u8, b3: u8) -> u32 {
    ((b0 as u32) << 24) | ((b1 as u32) << 16) | ((b2 as u32) << 8) | (b3 as u32)
}

/// The 16-bit integer at an offset of a buffer.
pub open spec fn u16_at(buffer: Seq<u8>, at: int) -> u16 {
    from_be16(buffer[at], buffer[at + 1])
}

/// The 32-bit integer at an offset of a buffer.
pub open spec fn u32_at(buffer: Seq<u8>, at: int) -> u32 {
    from_be32(buffer[at], buffer[at + 1], buffer[at + 2], buffer[at + 3])
}

/// Two bytes spell the integer that they were taken from.
pub proof fn lemma_be16_round_trip(value: u16)
    ensures
        be16(value).len() == 2,
        from_be16(be16(value)[0], be16(value)[1]) == value,
{
    assert((((value >> 8) as u8) as u16) << 8 | (((value & 0xff) as u8) as u16) == value)
        by (bit_vector);
}

/// Four bytes spell the integer that they were taken from.
pub proof fn lemma_be32_round_trip(value: u32)
    ensures
        be32(value).len() == 4,
        from_be32(be32(value)[0], be32(value)[1], be32(value)[2], be32(value)[3]) == value,
{
    assert((((value >> 24) as u8) as u32) << 24 | ((((value >> 16) & 0xff) as u8) as u32) << 16 | ((((
    value >> 8) & 0xff) as u8) as u32) << 8 | (((value & 0xff) as u8) as u32) == value)
        by (bit_vector);
}

/// Appends the two bytes of a 16-bit integer.
pub fn push_u16(buffer: &mut Vec<u8>, value: u16)
    ensures
        final(buffer)@ == old(buffer)@ + be16(value),
{
    let high: u8 = (value >> 8) as u8;
    let low: u8 = (value & 0xff) as u8;
    buffer.push(high);
    buffer.push(low);
    assert(buffer@ == old(buffer)@ + be16(value));
}

/// Appends the four bytes of a 32-bit integer.
pub fn push_u32(buffer: &mut Vec<u8>, value: u32)
    ensures
        final(buffer)@ == old(buffer)@ + be32(value),
{
    let b0: u8 = (value >> 24) as u8;
    let b1: u8 = ((value >> 16) & 0xff) as u8;
    let b2: u8 = ((value >> 8) & 0xff) as u8;
    let b3: u8 = (value & 0xff) as u8;
    buffer.push(b0);
    buffer.push(b1);
    buffer.push(b2);
    buffer.push(b3);
    assert(buffer@ == old(buffer)@ + be32(value));
}

/// Appends a copy of the bytes of a slice.
pub fn push_bytes(buffer: &mut Vec<u8>, bytes: &[u8])
    ensures
        final(buffer)@ == old(buffer)@ + bytes@,
{
    let mut i: usize = 0;
    while i < bytes.len()
        invariant
            i <= bytes.len(),
            buffer@ == old(buffer)@ + bytes@.take(i as int),
        decreases bytes.len() - i,
    {
        buffer.push(bytes[i]);
        assert(bytes@.take(i + 1) == bytes@.take(i as int).push(bytes@[i as int]));
        i += 1;
    }
    assert(bytes@.take(i as int) == bytes@);
}

/// Reads the 16-bit integer at an offset.
pub fn read_u16(buffer: &[u8], at: usize) -> (value: u16)
    requires
        at + 2 <= buffer.len(),
    ensures
        value == u16_at(buffer@, at as int),
{
    ((buffer[at] as u16) << 8) | (buffer[at + 1] as u16)
}

/// Reads the 32-bit integer at an offset.
pub fn read_u32(buffer: &[u8], at: usize) -> (value: u32)
    requires
        at + 4 <= buffer.len(),
    ensures
        value == u32_at(buffer@, at as int),
{
    ((buffer[at] as u32) << 24) | ((buffer[at + 1] as u32) << 16) | ((buffer[at + 2] as u32) << 8)
        | (buffer[at + 3] as u32)
}

} // verus!

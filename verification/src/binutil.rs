//! Big-endian reads and writes of fixed-width integers in byte buffers.

use vstd::prelude::*;

verus! {

/// The value of the 2-byte big-endian integer at position `i` of `s`.
pub open spec fn be16_at(s: Seq<u8>, i: int) -> int {
    s[i] * 0x100 + s[i + 1]
}

/// The value of the 3-byte big-endian integer at position `i` of `s`.
pub open spec fn be24_at(s: Seq<u8>, i: int) -> int {
    s[i] * 0x10000 + s[i + 1] * 0x100 + s[i + 2]
}

/// The value of the 4-byte big-endian integer at position `i` of `s`.
pub open spec fn be32_at(s: Seq<u8>, i: int) -> int {
    s[i] * 0x1000000 + s[i + 1] * 0x10000 + s[i + 2] * 0x100 + s[i + 3]
}

/// The value of the 8-byte big-endian integer at position `i` of `s`.
pub open spec fn be64_at(s: Seq<u8>, i: int) -> int {
    s[i] * 0x100000000000000 + s[i + 1] * 0x1000000000000 + s[i + 2] * 0x10000000000
        + s[i + 3] * 0x100000000 + s[i + 4] * 0x1000000 + s[i + 5] * 0x10000 + s[i + 6] * 0x100
        + s[i + 7]
}

/// Reads the 3-byte big-endian integer at the start of `array`.
pub fn parse_u24(array: &[u8]) -> (r: u32)
    requires
        array@.len() >= 3,
    ensures
        r == be24_at(array@, 0),
{
    (array[0] as u32) * 0x10000 + (array[1] as u32) * 0x100 + (array[2] as u32)
}

/// Reads the 4-byte big-endian integer at the start of `array`.
pub fn parse_u32(array: &[u8]) -> (r: u32)
    requires
        array@.len() >= 4,
    ensures
        r == be32_at(array@, 0),
{
    (array[0] as u32) * 0x1000000 + (array[1] as u32) * 0x10000 + (array[2] as u32) * 0x100
        + (array[3] as u32)
}

/// Writes `value` at position `offset` of `buffer`.
pub fn buf_write_u8(buffer: &mut Vec<u8>, offset: usize, value: u8)
    requires
        offset < old(buffer).len(),
    ensures
        final(buffer)@ == old(buffer)@.update(offset as int, value),
{
    buffer[offset] = value;
}

/// Writes the low 24 bits of `value` at position `offset` of `buffer`,
/// big-endian. Bits above the low 24 are silently dropped, as the 3-byte
/// field cannot hold them.
pub fn buf_write_u24(buffer: &mut Vec<u8>, offset: usize, value: u32)
    requires
        offset + 3 <= old(buffer).len(),
    ensures
        final(buffer)@ == old(buffer)@.update(offset as int, (value / 0x10000 % 0x100) as u8).update(
            offset + 1,
            (value / 0x100 % 0x100) as u8,
        ).update(offset + 2, (value % 0x100) as u8),
        final(buffer)@.len() == old(buffer)@.len(),
        be24_at(final(buffer)@, offset as int) == value % 0x1000000,
        forall|j: int|
            0 <= j < old(buffer)@.len() && !(offset <= j < offset + 3) ==> final(buffer)@[j]
                == old(buffer)@[j],
{
    proof {
        assert((value >> 16) & 0xFF < 256 && (value >> 8) & 0xFF < 256 && value & 0xFF < 256
            && (value >> 16) & 0xFF == value / 0x10000 % 0x100 && (value >> 8) & 0xFF == value
            / 0x100 % 0x100 && value & 0xFF == value % 0x100 && ((value >> 16) & 0xFF) * 0x10000 + (
        (value >> 8) & 0xFF) * 0x100 + (value & 0xFF) == value % 0x1000000) by (bit_vector);
    }
    buffer[offset] = ((value >> 16) & 0xFF) as u8;
    buffer[offset + 1] = ((value >> 8) & 0xFF) as u8;
    buffer[offset + 2] = (value & 0xFF) as u8;
}

/// Writes `value` at position `offset` of `buffer`, big-endian.
pub fn buf_write_u32(buffer: &mut Vec<u8>, offset: usize, value: u32)
    requires
        offset + 4 <= old(buffer).len(),
    ensures
        final(buffer)@ == old(buffer)@.update(offset as int, (value / 0x1000000 % 0x100) as u8)
            .update(offset + 1, (value / 0x10000 % 0x100) as u8).update(
            offset + 2,
            (value / 0x100 % 0x100) as u8,
        ).update(offset + 3, (value % 0x100) as u8),
        final(buffer)@.len() == old(buffer)@.len(),
        be32_at(final(buffer)@, offset as int) == value,
        forall|j: int|
            0 <= j < old(buffer)@.len() && !(offset <= j < offset + 4) ==> final(buffer)@[j]
                == old(buffer)@[j],
{
    proof {
        assert((value >> 24) & 0xFF < 256 && (value >> 16) & 0xFF < 256 && (value >> 8) & 0xFF
            < 256 && value & 0xFF < 256 && (value >> 24) & 0xFF == value / 0x1000000 % 0x100 && (
        value >> 16) & 0xFF == value / 0x10000 % 0x100 && (value >> 8) & 0xFF == value / 0x100
            % 0x100 && value & 0xFF == value % 0x100 && ((value >> 24) & 0xFF) * 0x1000000 + ((value
            >> 16) & 0xFF) * 0x10000 + ((value >> 8) & 0xFF) * 0x100 + (value & 0xFF)
            == value) by (bit_vector);
    }
    buffer[offset] = ((value >> 24) & 0xFF) as u8;
    buffer[offset + 1] = ((value >> 16) & 0xFF) as u8;
    buffer[offset + 2] = ((value >> 8) & 0xFF) as u8;
    buffer[offset + 3] = (value & 0xFF) as u8;
}

} // verus!

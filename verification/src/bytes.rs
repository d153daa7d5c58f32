//! Little-endian fields of a byte buffer.

use vstd::prelude::*;

verus! {

/// The unsigned 16-bit little-endian value at offset `i`.
pub open spec fn u16_at(s: Seq<u8>, i: int) -> u16 {
    (s[i] + 0x100 * s[i + 1]) as u16
}

/// The unsigned 32-bit little-endian value at offset `i`.
pub open spec fn u32_at(s: Seq<u8>, i: int) -> u32 {
    (u16_at(s, i) + 0x1_0000 * u16_at(s, i + 2)) as u32
}

/// The unsigned 64-bit little-endian value at offset `i`.
pub open spec fn u64_at(s: Seq<u8>, i: int) -> u64 {
    (u32_at(s, i) + 0x1_0000_0000 * u32_at(s, i + 4)) as u64
}

/// Reads the 16-bit little-endian value at `i`.
pub fn read_u16(s: &[u8], i: usize) -> (v: u16)
    requires
        i + 2 <= s@.len(),
    ensures
        v == u16_at(s@, i as int),
{
    s[i] as u16 + 0x100 * (s[i + 1] as u16)
}

/// Reads the 32-bit little-endian value at `i`.
pub fn read_u32(s: &[u8], i: usize) -> (v: u32)
    requires
        i + 4 <= s@.len(),
    ensures
        v == u32_at(s@, i as int),
{
    assert(i + 4 <= s.len());
    read_u16(s, i) as u32 + 0x1_0000 * (read_u16(s, i + 2) as u32)
}

/// Reads the 64-bit little-endian value at `i`.
pub fn read_u64(s: &[u8], i: usize) -> (v: u64)
    requires
        i + 8 <= s@.len(),
    ensures
        v == u64_at(s@, i as int),
{
    assert(i + 8 <= s.len());
    read_u32(s, i) as u64 + 0x1_0000_0000 * (read_u32(s, i + 4) as u64)
}

/// A field is little-endian: each byte weighs 256 times the one before it.
pub proof fn law_fields_are_little_endian(s: Seq<u8>, i: int)
    ensures
        u16_at(s, i) == s[i] + 0x100 * s[i + 1],
        u32_at(s, i) == s[i] + 0x100 * s[i + 1] + 0x1_0000 * s[i + 2] + 0x100_0000 * s[i + 3],
        u64_at(s, i) == u32_at(s, i) + 0x1_0000_0000 * u32_at(s, i + 4),
{
}

} // verus!

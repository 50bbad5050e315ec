//! Endian-aware reads of fixed-size unsigned integers out of a byte
//! sequence. The cache index declares its multi-byte fields in network byte
//! order (most significant byte first), independent of the host, so every
//! reader here is big-endian.

use vstd::prelude::*;

verus! {

/// The 16-bit unsigned value stored big-endian at offset `i` of `s`.
pub open spec fn spec_u16_be(s: Seq<u8>, i: int) -> u16
    recommends
        0 <= i,
        i + 2 <= s.len(),
{
    (s[i] * 0x100 + s[i + 1]) as u16
}

/// The 32-bit unsigned value stored big-endian at offset `i` of `s`.
pub open spec fn spec_u32_be(s: Seq<u8>, i: int) -> u32
    recommends
        0 <= i,
        i + 4 <= s.len(),
{
    (s[i] * 0x100_0000 + s[i + 1] * 0x1_0000 + s[i + 2] * 0x100 + s[i + 3]) as u32
}

/// The 64-bit unsigned value stored big-endian at offset `i` of `s`.
pub open spec fn spec_u64_be(s: Seq<u8>, i: int) -> u64
    recommends
        0 <= i,
        i + 8 <= s.len(),
{
    (s[i] * 0x100_0000_0000_0000
        + s[i + 1] * 0x1_0000_0000_0000
        + s[i + 2] * 0x100_0000_0000
        + s[i + 3] * 0x1_0000_0000
        + s[i + 4] * 0x100_0000
        + s[i + 5] * 0x1_0000
        + s[i + 6] * 0x100
        + s[i + 7]) as u64
}

/// Reads the byte at offset `pos`.
pub fn read_u8(b: &[u8], pos: usize) -> (r: u8)
    requires
        pos < b@.len(),
    ensures
        r == b@[pos as int],
{
    b[pos]
}

/// Reads the big-endian 16-bit unsigned integer at offset `pos`.
pub fn read_u16_be(b: &[u8], pos: usize) -> (r: u16)
    requires
        pos + 2 <= b@.len(),
    ensures
        r == spec_u16_be(b@, pos as int),
{
    (b[pos] as u16) * 0x100 + (b[pos + 1] as u16)
}

/// Reads the big-endian 32-bit unsigned integer at offset `pos`.
pub fn read_u32_be(b: &[u8], pos: usize) -> (r: u32)
    requires
        pos + 4 <= b@.len(),
    ensures
        r == spec_u32_be(b@, pos as int),
{
    (b[pos] as u32) * 0x100_0000 + (b[pos + 1] as u32) * 0x1_0000 + (b[pos + 2] as u32) * 0x100
        + (b[pos + 3] as u32)
}

/// Reads the big-endian 64-bit unsigned integer at offset `pos`.
pub fn read_u64_be(b: &[u8], pos: usize) -> (r: u64)
    requires
        pos + 8 <= b@.len(),
    ensures
        r == spec_u64_be(b@, pos as int),
{
    (b[pos] as u64) * 0x100_0000_0000_0000 + (b[pos + 1] as u64) * 0x1_0000_0000_0000 + (b[pos
        + 2] as u64) * 0x100_0000_0000 + (b[pos + 3] as u64) * 0x1_0000_0000 + (b[pos
        + 4] as u64) * 0x100_0000 + (b[pos + 5] as u64) * 0x1_0000 + (b[pos + 6] as u64) * 0x100 + (
    b[pos + 7] as u64)
}

} // verus!

//! Little-endian integer decoding over byte sequences.
use vstd::prelude::*;

verus! {

/// The unsigned value of the two bytes at `i`, least significant first.
pub open spec fn le_u16(s: Seq<u8>, i: int) -> int {
    s[i] + s[i + 1] * 0x100
}

/// The unsigned value of the four bytes at `i`, least significant first.
pub open spec fn le_u32(s: Seq<u8>, i: int) -> int {
    le_u16(s, i) + le_u16(s, i + 2) * 0x1_0000
}

/// The unsigned value of the eight bytes at `i`, least significant first.
pub open spec fn le_u64(s: Seq<u8>, i: int) -> int {
    le_u32(s, i) + le_u32(s, i + 4) * 0x1_0000_0000
}

/// The two's-complement value of the eight bytes at `i`, least significant first.
pub open spec fn le_i64(s: Seq<u8>, i: int) -> int {
    if le_u64(s, i) < 0x8000_0000_0000_0000 {
        le_u64(s, i)
    } else {
        le_u64(s, i) - 0x1_0000_0000_0000_0000
    }
}

pub fn read_u16_le(s: &[u8], i: usize) -> (r: u16)
    requires
        i + 2 <= s.len(),
    ensures
        r == le_u16(s@, i as int),
{
    s[i] as u16 + (s[i + 1] as u16) * 0x100
}

pub fn read_u32_le(s: &[u8], i: usize) -> (r: u32)
    requires
        i + 4 <= s.len(),
    ensures
        r == le_u32(s@, i as int),
{
    let lo = read_u16_le(s, i);
    let hi = read_u16_le(s, i + 2);
    lo as u32 + (hi as u32) * 0x1_0000
}

pub fn read_u64_le(s: &[u8], i: usize) -> (r: u64)
    requires
        i + 8 <= s.len(),
    ensures
        r == le_u64(s@, i as int),
{
    let lo = read_u32_le(s, i);
    let hi = read_u32_le(s, i + 4);
    lo as u64 + (hi as u64) * 0x1_0000_0000
}

pub fn read_i64_le(s: &[u8], i: usize) -> (r: i64)
    requires
        i + 8 <= s.len(),
    ensures
        r == le_i64(s@, i as int),
{
    let u = read_u64_le(s, i);
    if u < 0x8000_0000_0000_0000 {
        u as i64
    } else {
        let high: u64 = u - 0x8000_0000_0000_0000;
        (high as i64) - 0x7FFF_FFFF_FFFF_FFFF - 1
    }
}

} // verus!

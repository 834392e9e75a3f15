//! Little-endian integer decoding over byte sequences.
use vstd::prelude::*;

verus! {

/// Little-endian `u16` stored at `s[i..i + 2]`.
pub open spec fn le_u16(s: Seq<u8>, i: int) -> int {
    s[i] + 256 * s[i + 1]
}

/// Little-endian `u32` stored at `s[i..i + 4]`.
pub open spec fn le_u32(s: Seq<u8>, i: int) -> int {
    s[i] + 256 * s[i + 1] + 65536 * s[i + 2] + 16777216 * s[i + 3]
}

/// Two's-complement reading of a 32-bit pattern.
pub open spec fn as_signed32(v: int) -> int {
    if v < 0x8000_0000 {
        v
    } else {
        v - 0x1_0000_0000
    }
}

pub fn read_le_u16(data: &[u8], i: usize) -> (r: u16)
    requires
        i + 2 <= data@.len(),
    ensures
        r == le_u16(data@, i as int),
{
    data[i] as u16 + (data[i + 1] as u16) * 256
}

pub fn read_le_u32(data: &[u8], i: usize) -> (r: u32)
    requires
        i + 4 <= data@.len(),
    ensures
        r == le_u32(data@, i as int),
{
    data[i] as u32 + (data[i + 1] as u32) * 256 + (data[i + 2] as u32) * 65536 + (data[i
        + 3] as u32) * 16777216
}

/// Reinterpret a 32-bit pattern as a signed integer.
pub fn u32_as_i32(v: u32) -> (r: i32)
    ensures
        r == as_signed32(v as int),
{
    if v < 0x8000_0000 {
        v as i32
    } else {
        let low: u32 = v - 0x8000_0000;
        (low as i32) - 0x7fff_ffff - 1
    }
}

} // verus!

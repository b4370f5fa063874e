//! Little-endian integers in byte buffers.

use vstd::prelude::*;

verus! {

/// The two bytes of `d` at `o`, least significant first, as a number.
pub open spec fn le16(d: Seq<u8>, o: int) -> u16 {
    (d[o] + 0x100 * d[o + 1]) as u16
}

/// The four bytes of `d` at `o`, least significant first, as a number.
pub open spec fn le32(d: Seq<u8>, o: int) -> u32 {
    (d[o] + 0x100 * d[o + 1] + 0x1_0000 * d[o + 2] + 0x100_0000 * d[o + 3]) as u32
}

/// The eight bytes of `d` at `o`, least significant first, as a number.
pub open spec fn le64(d: Seq<u8>, o: int) -> u64 {
    (d[o] + 0x100 * d[o + 1] + 0x1_0000 * d[o + 2] + 0x100_0000 * d[o + 3]
        + 0x1_0000_0000 * d[o + 4] + 0x100_0000_0000 * d[o + 5] + 0x1_0000_0000_0000 * d[o + 6]
        + 0x100_0000_0000_0000 * d[o + 7]) as u64
}

/// Reads the 16-bit number at byte `o` of `d`.
pub fn r16(d: &[u8], o: usize) -> (v: u16)
    requires
        o + 2 <= d@.len(),
    ensures
        v == le16(d@, o as int),
{
    d[o] as u16 + 0x100 * d[o + 1] as u16
}

/// Reads the 32-bit number at byte `o` of `d`.
pub fn r32(d: &[u8], o: usize) -> (v: u32)
    requires
        o + 4 <= d@.len(),
    ensures
        v == le32(d@, o as int),
{
    d[o] as u32 + 0x100 * d[o + 1] as u32 + 0x1_0000 * d[o + 2] as u32 + 0x100_0000 * d[o
        + 3] as u32
}

/// Reads the 64-bit number at byte `o` of `d`.
pub fn r64(d: &[u8], o: usize) -> (v: u64)
    requires
        o + 8 <= d@.len(),
    ensures
        v == le64(d@, o as int),
{
    d[o] as u64 + 0x100 * d[o + 1] as u64 + 0x1_0000 * d[o + 2] as u64 + 0x100_0000 * d[o
        + 3] as u64 + 0x1_0000_0000 * d[o + 4] as u64 + 0x100_0000_0000 * d[o + 5] as u64
        + 0x1_0000_0000_0000 * d[o + 6] as u64 + 0x100_0000_0000_0000 * d[o + 7] as u64
}

} // verus!

//! Little-endian numbers in guest memory.
//!
//! The guest chooses many of the addresses used here. A number that does not lie
//! wholly within the memory reads as zero, and writing it changes nothing.

use vstd::prelude::*;

use crate::bytes::{le16, le32, le64, r16, r32, r64};

verus! {

/// Whether the `n` bytes at the guest address `a` lie within the memory.
pub open spec fn in_memory(mem: Seq<u8>, a: int, n: int) -> bool {
    0 <= a && a + n <= mem.len()
}

/// The 16-bit number at the guest address `a`.
pub open spec fn guest16(mem: Seq<u8>, a: int) -> u16 {
    if in_memory(mem, a, 2) {
        le16(mem, a)
    } else {
        0
    }
}

/// The 32-bit number at the guest address `a`.
pub open spec fn guest32(mem: Seq<u8>, a: int) -> u32 {
    if in_memory(mem, a, 4) {
        le32(mem, a)
    } else {
        0
    }
}

/// The 64-bit number at the guest address `a`.
pub open spec fn guest64(mem: Seq<u8>, a: int) -> u64 {
    if in_memory(mem, a, 8) {
        le64(mem, a)
    } else {
        0
    }
}

/// Byte `i` of the number `v`, least significant first.
pub open spec fn byte_of(v: int, i: int) -> u8 {
    if i == 0 {
        (v % 0x100) as u8
    } else if i == 1 {
        (v / 0x100 % 0x100) as u8
    } else if i == 2 {
        (v / 0x1_0000 % 0x100) as u8
    } else {
        (v / 0x100_0000 % 0x100) as u8
    }
}

/// The memory after the `n` low bytes of `v` were written to the guest address `a`.
pub open spec fn put_bytes(mem: Seq<u8>, a: int, n: int, v: int) -> Seq<u8> {
    Seq::new(
        mem.len(),
        |i: int|
            if a <= i < a + n {
                byte_of(v, i - a)
            } else {
                mem[i]
            },
    )
}

/// The memory after a 16-bit number was written to the guest address `a`.
pub open spec fn put16(mem: Seq<u8>, a: int, v: u16) -> Seq<u8> {
    if in_memory(mem, a, 2) {
        put_bytes(mem, a, 2, v as int)
    } else {
        mem
    }
}

/// The memory after a 32-bit number was written to the guest address `a`.
pub open spec fn put32(mem: Seq<u8>, a: int, v: u32) -> Seq<u8> {
    if in_memory(mem, a, 4) {
        put_bytes(mem, a, 4, v as int)
    } else {
        mem
    }
}

/// Whether `n` bytes at `gpa` lie within a memory of `len` bytes.
pub fn fits(len: usize, gpa: u64, n: u64) -> (r: bool)
    ensures
        r == (gpa + n <= len),
{
    let size: u64 = len as u64;
    gpa <= size && n <= size - gpa
}

/// Reads the 16-bit number at `gpa`.
pub fn read_u16(mem: &[u8], gpa: u64) -> (v: u16)
    ensures
        v == guest16(mem@, gpa as int),
{
    if !fits(mem.len(), gpa, 2) {
        return 0;
    }
    r16(mem, gpa as usize)
}

/// Reads the 32-bit number at `gpa`.
pub fn read_u32(mem: &[u8], gpa: u64) -> (v: u32)
    ensures
        v == guest32(mem@, gpa as int),
{
    if !fits(mem.len(), gpa, 4) {
        return 0;
    }
    r32(mem, gpa as usize)
}

/// Reads the 64-bit number at `gpa`.
pub fn read_u64(mem: &[u8], gpa: u64) -> (v: u64)
    ensures
        v == guest64(mem@, gpa as int),
{
    if !fits(mem.len(), gpa, 8) {
        return 0;
    }
    r64(mem, gpa as usize)
}

/// Writes the 16-bit number at `gpa`.
pub fn write_u16(mem: &mut [u8], gpa: u64, val: u16)
    ensures
        final(mem)@ == put16(old(mem)@, gpa as int, val),
{
    if !fits(mem.len(), gpa, 2) {
        return ;
    }
    let off: usize = gpa as usize;
    mem[off] = (val % 0x100) as u8;
    mem[off + 1] = (val / 0x100) as u8;
}

/// Writes the 32-bit number at `gpa`.
pub fn write_u32(mem: &mut [u8], gpa: u64, val: u32)
    ensures
        final(mem)@ == put32(old(mem)@, gpa as int, val),
{
    if !fits(mem.len(), gpa, 4) {
        return ;
    }
    let off: usize = gpa as usize;
    mem[off] = (val % 0x100) as u8;
    mem[off + 1] = (val / 0x100 % 0x100) as u8;
    mem[off + 2] = (val / 0x1_0000 % 0x100) as u8;
    mem[off + 3] = (val / 0x100_0000) as u8;
}

/// What was written to guest memory is read back, and every byte outside of it is
/// unchanged.
pub proof fn law_read_after_write_u16(mem: Seq<u8>, a: int, v: u16)
    requires
        in_memory(mem, a, 2),
    ensures
        guest16(put16(mem, a, v), a) == v,
        put16(mem, a, v).len() == mem.len(),
        forall|i: int|
            0 <= i < mem.len() && !(a <= i < a + 2) ==> #[trigger] put16(mem, a, v)[i] == mem[i],
{
}

/// What was written to guest memory is read back, and every byte outside of it is
/// unchanged.
pub proof fn law_read_after_write_u32(mem: Seq<u8>, a: int, v: u32)
    requires
        in_memory(mem, a, 4),
    ensures
        guest32(put32(mem, a, v), a) == v,
        put32(mem, a, v).len() == mem.len(),
        forall|i: int|
            0 <= i < mem.len() && !(a <= i < a + 4) ==> #[trigger] put32(mem, a, v)[i] == mem[i],
{
}

} // verus!

//! Reading vCPU and device state out of a Firecracker snapshot.
//!
//! The snapshot is a binary blob whose sections shift between Firecracker
//! versions, so nothing in it has a fixed offset. Each structure is found by a
//! pattern that it is known to show, and the rest of the structure is read
//! relative to that anchor.

use std::collections::HashSet;

use vstd::prelude::*;

use crate::bytes::{le16, le32, le64, r16, r32, r64};
use crate::scan::{first_in, last_in, lemma_first_in};
use crate::vmm::kvm_types::{
    KvmCpuidEntry2, KvmDtable, KvmLapicState, KvmMsrEntry, KvmRegs, KvmSegment, KvmSregs, KvmXcr,
    KvmXcrs, KvmXsave, XcrsModel,
};
use crate::vmm::virtio_blk::VirtioQueueAddrs;

verus! {

/// Distance from the segment registers to EFER within the special registers:
/// eight segments of 24 bytes, two descriptor tables of 16, CR0, CR2, CR3, CR4
/// and CR8.
pub const EFER_TO_SEGS: usize = 264;

/// Distance from GDT to EFER.
pub const EFER_TO_GDT: usize = 72;

/// Distance from IDT to EFER.
pub const EFER_TO_IDT: usize = 56;

/// Distance from CR0 to EFER.
pub const EFER_TO_CR: usize = 40;

/// Size of one special register block: segments (192), GDT and IDT (32), CR0 to
/// CR4 (32), CR8, EFER and APIC base (24), and the interrupt bitmap (32).
pub const SREGS_SIZE: usize = 312;

/// Size of one general purpose register block.
pub const REGS_SIZE: usize = 144;

/// Why a snapshot could not be read.
#[derive(Clone, Copy, Debug, PartialEq, Eq, Structural)]
pub enum VmStateError {
    /// No position looks like EFER with its neighbours.
    EferNotFound,
    /// No value that looks like RFLAGS precedes the segment registers.
    RflagsNotFound,
    /// The register block that RFLAGS ends would start before the data.
    RegsOutOfRange,
    /// The IOAPIC base address does not occur.
    IoapicNotFound,
    /// No local APIC register page was recognised.
    LapicNotFound,
    /// The special registers of a secondary vCPU lie past the end of the data.
    SregsOutOfRange,
}

/// The text of an error.
pub open spec fn error_text(e: VmStateError) -> Seq<char> {
    match e {
        VmStateError::EferNotFound => "cannot find EFER in vmstate"@,
        VmStateError::RflagsNotFound => "cannot find rflags before segs"@,
        VmStateError::RegsOutOfRange => "registers start before the vmstate"@,
        VmStateError::IoapicNotFound => "cannot find IOAPIC base address 0xFEC00000 in vmstate"@,
        VmStateError::LapicNotFound => "cannot find LAPIC in vmstate"@,
        VmStateError::SregsOutOfRange => "special registers end past the vmstate"@,
    }
}

impl VmStateError {
    /// The text of the error.
    pub fn message(&self) -> (r: &'static str)
        ensures
            r@ == error_text(*self),
    {
        match self {
            VmStateError::EferNotFound => "cannot find EFER in vmstate",
            VmStateError::RflagsNotFound => "cannot find rflags before segs",
            VmStateError::RegsOutOfRange => "registers start before the vmstate",
            VmStateError::IoapicNotFound => "cannot find IOAPIC base address 0xFEC00000 in vmstate",
            VmStateError::LapicNotFound => "cannot find LAPIC in vmstate",
            VmStateError::SregsOutOfRange => "special registers end past the vmstate",
        }
    }
}

/// The state of a vCPU other than the first.
#[derive(Debug, PartialEq, Eq)]
pub struct SecondaryVcpuState {
    pub regs: KvmRegs,
    pub sregs: KvmSregs,
    pub lapic: KvmLapicState,
    pub xcrs: KvmXcrs,
    pub xsave: KvmXsave,
}

/// What a snapshot says of a VM: the first vCPU and the devices, and the other
/// vCPUs.
#[derive(Debug, PartialEq, Eq)]
pub struct ParsedVmState {
    pub regs: KvmRegs,
    pub sregs: KvmSregs,
    pub msrs: Vec<KvmMsrEntry>,
    pub lapic: KvmLapicState,
    pub ioapic_redirtbl: [u64; 24],
    pub xcrs: KvmXcrs,
    pub xsave: KvmXsave,
    pub cpuid_entries: Vec<KvmCpuidEntry2>,
    pub virtio_queue: Option<VirtioQueueAddrs>,
    pub secondary_vcpus: Vec<SecondaryVcpuState>,
}

/// What `SecondaryVcpuState` holds, with its arrays as sequences.
#[verifier::ext_equal]
pub struct SecondaryVcpuModel {
    pub regs: KvmRegs,
    pub sregs: KvmSregs,
    pub lapic: Seq<i8>,
    pub xcrs: XcrsModel,
    pub xsave: Seq<u32>,
}

/// What `ParsedVmState` holds, with its arrays and vectors as sequences.
#[verifier::ext_equal]
pub struct VmStateModel {
    pub regs: KvmRegs,
    pub sregs: KvmSregs,
    pub msrs: Seq<KvmMsrEntry>,
    pub lapic: Seq<i8>,
    pub ioapic_redirtbl: Seq<u64>,
    pub xcrs: XcrsModel,
    pub xsave: Seq<u32>,
    pub cpuid_entries: Seq<KvmCpuidEntry2>,
    pub virtio_queue: Option<VirtioQueueAddrs>,
    pub secondary_vcpus: Seq<SecondaryVcpuModel>,
}

impl View for SecondaryVcpuState {
    type V = SecondaryVcpuModel;

    open spec fn view(&self) -> SecondaryVcpuModel {
        SecondaryVcpuModel {
            regs: self.regs,
            sregs: self.sregs,
            lapic: self.lapic@,
            xcrs: self.xcrs@,
            xsave: self.xsave@,
        }
    }
}

impl View for ParsedVmState {
    type V = VmStateModel;

    open spec fn view(&self) -> VmStateModel {
        VmStateModel {
            regs: self.regs,
            sregs: self.sregs,
            msrs: self.msrs@,
            lapic: self.lapic@,
            ioapic_redirtbl: self.ioapic_redirtbl@,
            xcrs: self.xcrs@,
            xsave: self.xsave@,
            cpuid_entries: self.cpuid_entries@,
            virtio_queue: self.virtio_queue,
            secondary_vcpus: self.secondary_vcpus@.map_values(|v: SecondaryVcpuState| v@),
        }
    }
}

/// Whether the special registers of a vCPU may have their EFER, of value `efer`,
/// at a position: CR0 before it has protection and paging on and fits 32 bits,
/// and the APIC base behind it is the architectural one.
pub open spec fn efer_at(d: Seq<u8>, efer: u64) -> spec_fn(int) -> bool {
    |i: int|
        {
            let cr0 = le64(d, i - EFER_TO_CR);
            &&& le64(d, i) == efer
            &&& cr0 & 0x80000001 == 0x80000001
            &&& cr0 >> 32 == 0
            &&& le64(d, i + 8) & 0xFFFFF000 == 0xFEE00000
        }
}

/// The first position of an EFER of the given value.
pub open spec fn efer_scan(d: Seq<u8>, efer: u64) -> Option<int> {
    first_in(efer_at(d, efer), EFER_TO_SEGS as int, d.len() - 16)
}

/// Where the first vCPU's EFER is. The values that a booted guest may have are
/// tried in turn, and the first occurrence of the first value that occurs counts.
pub open spec fn efer_offset(d: Seq<u8>) -> Option<int> {
    if efer_scan(d, 0xD01) is Some {
        efer_scan(d, 0xD01)
    } else if efer_scan(d, 0x501) is Some {
        efer_scan(d, 0x501)
    } else if efer_scan(d, 0xD00) is Some {
        efer_scan(d, 0xD00)
    } else {
        efer_scan(d, 0x500)
    }
}

/// The bounds within which `efer_offset` lies.
pub proof fn lemma_efer_offset(d: Seq<u8>)
    ensures
        efer_offset(d) matches Some(i) ==> EFER_TO_SEGS <= i && i + 16 < d.len(),
{
    lemma_first_in(efer_at(d, 0xD01), EFER_TO_SEGS as int, d.len() - 16);
    lemma_first_in(efer_at(d, 0x501), EFER_TO_SEGS as int, d.len() - 16);
    lemma_first_in(efer_at(d, 0xD00), EFER_TO_SEGS as int, d.len() - 16);
    lemma_first_in(efer_at(d, 0x500), EFER_TO_SEGS as int, d.len() - 16);
}

fn scan_efer(data: &[u8], efer: u64) -> (r: Option<usize>)
    ensures
        match r {
            Some(i) => efer_scan(data@, efer) == Some(i as int),
            None => efer_scan(data@, efer) is None,
        },
{
    let len: usize = data.len();
    let end: usize = len.saturating_sub(16);
    let mut i: usize = EFER_TO_SEGS;
    while i < end
        invariant
            len == data@.len(),
            EFER_TO_SEGS <= i,
            end == if len >= 16 { len - 16 } else { 0 },
            efer_scan(data@, efer) == first_in(efer_at(data@, efer), i as int, data@.len() - 16),
        decreases end - i,
    {
        if r64(data, i) == efer {
            let cr0: u64 = r64(data, i - EFER_TO_CR);
            if cr0 & 0x80000001 == 0x80000001 && cr0 >> 32 == 0 {
                let apic: u64 = r64(data, i + 8);
                if apic & 0xFFFFF000 == 0xFEE00000 {
                    return Some(i);
                }
            }
        }
        i += 1;
    }
    None
}

/// Finds the EFER of the first vCPU.
pub fn find_efer(data: &[u8]) -> (r: Result<usize, VmStateError>)
    ensures
        match r {
            Ok(i) => efer_offset(data@) == Some(i as int),
            Err(e) => efer_offset(data@) is None && e == VmStateError::EferNotFound,
        },
{
    if let Some(i) = scan_efer(data, 0xD01) {
        return Ok(i);
    }
    if let Some(i) = scan_efer(data, 0x501) {
        return Ok(i);
    }
    if let Some(i) = scan_efer(data, 0xD00) {
        return Ok(i);
    }
    match scan_efer(data, 0x500) {
        Some(i) => Ok(i),
        None => Err(VmStateError::EferNotFound),
    }
}

/// Whether a value can be RFLAGS: bit 1 is always set, the high bits are clear.
pub open spec fn rflags_like(v: u64) -> bool {
    v & 0x2 != 0 && v < 0x400000
}

/// Whether a position may hold the RFLAGS that ends a register block: the RIP
/// before it is not zero.
pub open spec fn rflags_at(d: Seq<u8>) -> spec_fn(int) -> bool {
    |pos: int|
        {
            &&& pos >= 8
            &&& pos + 8 <= d.len()
            &&& rflags_like(le64(d, pos))
            &&& le64(d, pos - 8) != 0
        }
}

/// Where the RFLAGS of the last vCPU is: the last candidate in the 56 positions
/// that end 8 bytes before the segment registers.
pub open spec fn last_rflags(d: Seq<u8>, segs: int) -> Option<int> {
    last_in(rflags_at(d), if segs >= 64 { segs - 64 } else { 0 }, segs - 8)
}

/// The first of the contiguous register blocks that end with the block at `off`.
pub open spec fn first_block(d: Seq<u8>, off: int) -> int
    decreases off,
{
    if off >= REGS_SIZE && rflags_like(le64(d, off - 8)) {
        first_block(d, off - REGS_SIZE)
    } else {
        off
    }
}

/// Where the first vCPU's register block starts, given where the segments start.
pub open spec fn first_regs_offset(d: Seq<u8>, segs: int) -> Result<int, VmStateError> {
    match last_rflags(d, segs) {
        None => Err(VmStateError::RflagsNotFound),
        Some(pos) => if pos < 136 {
            Err(VmStateError::RegsOutOfRange)
        } else {
            Ok(first_block(d, pos - 136))
        },
    }
}

/// The number of register blocks from `off` on that end before the segments.
pub open spec fn blocks_from(d: Seq<u8>, off: int, segs: int) -> nat
    decreases segs - off,
{
    if off + REGS_SIZE <= segs && rflags_like(le64(d, off + 136)) {
        1 + blocks_from(d, off + REGS_SIZE, segs)
    } else {
        0
    }
}

/// Whether the register blocks from `off` on that end before the segments, up to the
/// first that cannot be one, lie within the data.
pub open spec fn blocks_readable(d: Seq<u8>, off: int, segs: int) -> bool
    decreases segs - off,
{
    off + REGS_SIZE <= segs ==> {
        &&& off + REGS_SIZE <= d.len()
        &&& rflags_like(le64(d, off + 136)) ==> blocks_readable(d, off + REGS_SIZE, segs)
    }
}

/// All blocks lie within the data where the segments start there.
pub proof fn lemma_blocks_readable(d: Seq<u8>, off: int, segs: int)
    requires
        segs <= d.len(),
    ensures
        blocks_readable(d, off, segs),
    decreases segs - off,
{
    if off + REGS_SIZE <= segs {
        lemma_blocks_readable(d, off + REGS_SIZE, segs);
    }
}

/// The number of vCPUs: the first block, and those that follow it.
pub open spec fn vcpu_count(d: Seq<u8>, regs: int, segs: int) -> nat {
    1 + blocks_from(d, regs + REGS_SIZE, segs)
}

fn is_rflags(v: u64) -> (r: bool)
    ensures
        r == rflags_like(v),
{
    v & 0x2 != 0 && v < 0x400000
}

/// Finds the first vCPU's general purpose registers by looking backward from the
/// segment registers, which start at `segs_off`.
pub fn find_first_regs(data: &[u8], segs_off: usize) -> (r: Result<usize, VmStateError>)
    ensures
        match r {
            Ok(o) => first_regs_offset(data@, segs_off as int) == Ok::<int, VmStateError>(o as int),
            Err(e) => first_regs_offset(data@, segs_off as int) == Err::<int, VmStateError>(e),
        },
        r matches Ok(o) ==> o + REGS_SIZE <= segs_off && o + REGS_SIZE <= data@.len(),
{
    let len: usize = data.len();
    let scan_start: usize = segs_off.saturating_sub(64);
    let mut pos: usize = segs_off.saturating_sub(8);
    while pos > scan_start
        invariant_except_break
            last_rflags(data@, segs_off as int) == last_in(
                rflags_at(data@),
                scan_start as int,
                pos as int,
            ),
        invariant
            len == data@.len(),
            scan_start == if segs_off >= 64 { segs_off - 64 } else { 0 },
            scan_start <= pos,
            pos + 8 <= segs_off || pos == scan_start,
        ensures
            pos > scan_start ==> pos + 7 <= len && last_rflags(data@, segs_off as int) == Some(
                pos - 1,
            ),
            pos <= scan_start ==> last_rflags(data@, segs_off as int) is None,
        decreases pos,
    {
        let at: usize = pos - 1;
        if at <= len && len - at >= 8 {
            if is_rflags(r64(data, at)) && at >= 8 && r64(data, at - 8) != 0 {
                break;
            }
        }
        pos = at;
    }
    if pos <= scan_start {
        return Err(VmStateError::RflagsNotFound);
    }
    let rflags_pos: usize = pos - 1;
    if rflags_pos < 136 {
        return Err(VmStateError::RegsOutOfRange);
    }
    let mut first: usize = rflags_pos - 136;
    while first >= REGS_SIZE && is_rflags(r64(data, first - 8))
        invariant
            len == data@.len(),
            first + REGS_SIZE <= segs_off,
            first + REGS_SIZE <= len,
            first_block(data@, rflags_pos - 136) == first_block(data@, first as int),
        decreases first,
    {
        first -= REGS_SIZE;
    }
    Ok(first)
}

/// Counts the register blocks between the first one and the segment registers.
pub fn count_vcpu_regs(data: &[u8], regs_off: usize, segs_off: usize) -> (n: usize)
    requires
        regs_off + REGS_SIZE <= usize::MAX,
        blocks_readable(data@, regs_off + REGS_SIZE, segs_off as int),
    ensures
        n == vcpu_count(data@, regs_off as int, segs_off as int),
        n > 1 ==> regs_off + n * REGS_SIZE <= segs_off,
{
    let len: usize = data.len();
    let mut count: usize = 1;
    let mut off: usize = regs_off + REGS_SIZE;
    while off <= segs_off && segs_off - off >= REGS_SIZE && is_rflags(r64(data, off + 136))
        invariant
            len == data@.len(),
            off == regs_off + count * REGS_SIZE,
            blocks_readable(data@, off as int, segs_off as int),
            count >= 1,
            count > 1 ==> off <= segs_off,
            vcpu_count(data@, regs_off as int, segs_off as int) == count + blocks_from(
                data@,
                off as int,
                segs_off as int,
            ),
        decreases segs_off - off,
    {
        count += 1;
        off += REGS_SIZE;
    }
    count
}

/// Whether an IOAPIC may start at a position: its base address is the standard
/// one, and the first entry of its redirection table is small.
pub open spec fn ioapic_at(d: Seq<u8>) -> spec_fn(int) -> bool {
    |i: int| le64(d, i) == 0xFEC00000 && le64(d, i + 24) < 0x100000
}

/// Where the IOAPIC is.
pub open spec fn ioapic_offset(d: Seq<u8>) -> Option<int> {
    first_in(ioapic_at(d), 0, d.len() - 216)
}

/// Finds the IOAPIC by its base address.
pub fn find_ioapic(data: &[u8]) -> (r: Result<usize, VmStateError>)
    ensures
        match r {
            Ok(i) => ioapic_offset(data@) == Some(i as int) && i + 216 < data@.len(),
            Err(e) => ioapic_offset(data@) is None && e == VmStateError::IoapicNotFound,
        },
{
    let len: usize = data.len();
    let end: usize = len.saturating_sub(216);
    let mut i: usize = 0;
    while i < end
        invariant
            len == data@.len(),
            end == if len >= 216 { len - 216 } else { 0 },
            ioapic_offset(data@) == first_in(ioapic_at(data@), i as int, len - 216),
        decreases end - i,
    {
        if r64(data, i) == 0xFEC00000 && r64(data, i + 24) < 0x100000 {
            return Ok(i);
        }
        i += 1;
    }
    Err(VmStateError::IoapicNotFound)
}

/// Whether a local APIC register page may start at a position: its version
/// register is a known one, its first word is zero, and the enable bit of its
/// spurious interrupt vector is set.
pub open spec fn lapic_at(d: Seq<u8>) -> spec_fn(int) -> bool {
    |i: int|
        {
            let version = le32(d, i + 0x30) & 0xFF0FF;
            &&& version == 0x50014 || version == 0x60014
            &&& le32(d, i) == 0
            &&& le32(d, i + 0xF0) & 0x100 != 0
        }
}

/// Where the first vCPU's local APIC is.
pub open spec fn lapic_offset(d: Seq<u8>) -> Option<int> {
    first_in(lapic_at(d), 0, d.len() - 1024)
}

/// Finds the first local APIC by its version register.
pub fn find_lapic(data: &[u8]) -> (r: Result<usize, VmStateError>)
    ensures
        match r {
            Ok(i) => lapic_offset(data@) == Some(i as int) && i + 1024 < data@.len(),
            Err(e) => lapic_offset(data@) is None && e == VmStateError::LapicNotFound,
        },
{
    let len: usize = data.len();
    let end: usize = len.saturating_sub(1024);
    let mut i: usize = 0;
    while i < end
        invariant
            len == data@.len(),
            end == if len >= 1024 { len - 1024 } else { 0 },
            lapic_offset(data@) == first_in(lapic_at(data@), i as int, len - 1024),
        decreases end - i,
    {
        let version: u32 = r32(data, i + 0x30) & 0xFF0FF;
        if (version == 0x50014 || version == 0x60014) && r32(data, i) == 0 && r32(data, i + 0xF0)
            & 0x100 != 0 {
            return Ok(i);
        }
        i += 1;
    }
    Err(VmStateError::LapicNotFound)
}

/// Whether a value can be MXCSR: all exceptions masked, the high half clear.
pub open spec fn mxcsr_like(v: u32) -> bool {
    v & 0x1F80 == 0x1F80 && v & 0xFFFF0000 == 0
}

/// Whether a value can be MXCSR.
pub fn valid_mxcsr(v: u32) -> (r: bool)
    ensures
        r == mxcsr_like(v),
{
    v & 0x1F80 == 0x1F80 && v & 0xFFFF0000 == 0
}

/// Whether an XSAVE area may start at a position: the default x87 control word,
/// and a valid MXCSR 24 bytes on.
pub open spec fn xsave_at(d: Seq<u8>) -> spec_fn(int) -> bool {
    |i: int| le16(d, i) == 0x037F && mxcsr_like(le32(d, i + 24))
}

/// Where the first XSAVE area at or after `from` is.
pub open spec fn xsave_offset(d: Seq<u8>, from: int) -> Option<int> {
    first_in(xsave_at(d), from, d.len() - 4096)
}

/// Finds the first XSAVE area at or after `search_after`.
pub fn find_xsave(data: &[u8], search_after: usize) -> (r: Option<usize>)
    ensures
        match r {
            Some(i) => {
                &&& xsave_offset(data@, search_after as int) == Some(i as int)
                &&& search_after <= i
                &&& i + 4096 < data@.len()
            },
            None => xsave_offset(data@, search_after as int) is None,
        },
{
    let len: usize = data.len();
    let end: usize = len.saturating_sub(4096);
    let mut i: usize = search_after;
    while i < end
        invariant
            len == data@.len(),
            search_after <= i,
            end == if len >= 4096 { len - 4096 } else { 0 },
            xsave_offset(data@, search_after as int) == first_in(
                xsave_at(data@),
                i as int,
                len - 4096,
            ),
        decreases end - i,
    {
        if r16(data, i) == 0x037F && valid_mxcsr(r32(data, i + 24)) {
            return Some(i);
        }
        i += 1;
    }
    None
}

/// Where the `n`-th XSAVE area after the one at `first` is. Areas do not overlap,
/// so the search for each starts 4096 bytes past the one before it.
pub open spec fn nth_xsave_offset(d: Seq<u8>, first: int, n: nat) -> Option<int>
    decreases n,
{
    if n == 0 {
        Some(first)
    } else {
        match nth_xsave_offset(d, first, (n - 1) as nat) {
            Some(prev) => first_in(xsave_at(d), prev + 4096, d.len() - 4095),
            None => None,
        }
    }
}

proof fn lemma_no_nth_xsave(d: Seq<u8>, first: int, k: nat, n: nat)
    requires
        k <= n,
        nth_xsave_offset(d, first, k) is None,
    ensures
        nth_xsave_offset(d, first, n) is None,
    decreases n,
{
    if k < n {
        lemma_no_nth_xsave(d, first, k, (n - 1) as nat);
    }
}

/// Finds the `n`-th XSAVE area after the one at `first_xsave`.
pub fn find_nth_xsave(data: &[u8], first_xsave: usize, n: usize) -> (r: Option<usize>)
    ensures
        match r {
            Some(i) => nth_xsave_offset(data@, first_xsave as int, n as nat) == Some(i as int) && (n
                > 0 ==> i + 4096 <= data@.len()),
            None => nth_xsave_offset(data@, first_xsave as int, n as nat) is None,
        },
{
    let len: usize = data.len();
    let mut found: usize = first_xsave;
    let mut k: usize = 0;
    while k < n
        invariant
            len == data@.len(),
            k <= n,
            k > 0 ==> found + 4096 <= len,
            nth_xsave_offset(data@, first_xsave as int, k as nat) == Some(found as int),
        decreases n - k,
    {
        if found >= len || len - found < 4096 {
            proof {
                lemma_no_nth_xsave(data@, first_xsave as int, (k + 1) as nat, n as nat);
            }
            return None;
        }
        let mut off: usize = found + 4096;
        while len - off >= 4096 && !(r16(data, off) == 0x037F && valid_mxcsr(r32(data, off + 24)))
            invariant
                len == data@.len(),
                off <= len,
                nth_xsave_offset(data@, first_xsave as int, (k + 1) as nat) == first_in(
                    xsave_at(data@),
                    off as int,
                    len - 4095,
                ),
            decreases len - off,
        {
            off += 1;
        }
        if len - off < 4096 {
            proof {
                lemma_no_nth_xsave(data@, first_xsave as int, (k + 1) as nat, n as nat);
            }
            return None;
        }
        found = off;
        k += 1;
    }
    Some(found)
}

/// Whether an XCR list of one entry may start at a position: XCR0, with x87 on
/// and no unknown feature.
pub open spec fn xcrs_at(d: Seq<u8>) -> spec_fn(int) -> bool {
    |i: int|
        {
            let value = le64(d, i + 16);
            &&& le32(d, i) == 1
            &&& le32(d, i + 4) == 0
            &&& le32(d, i + 8) == 0
            &&& le32(d, i + 12) == 0
            &&& 0 < value < 0x10000
            &&& value & 1 != 0
        }
}

/// The entry of an XCR list that none was read into.
pub open spec fn zero_xcr() -> KvmXcr {
    KvmXcr { xcr: 0, reserved: 0, value: 0 }
}

/// The `i`-th entry of the XCR list at `o`, where it lies within the data.
pub open spec fn xcr_entry(d: Seq<u8>, o: int, i: int) -> KvmXcr {
    let e = o + 8 + i * 16;
    if e + 16 <= d.len() {
        KvmXcr { xcr: le32(d, e), reserved: le32(d, e + 4), value: le64(d, e + 8) }
    } else {
        zero_xcr()
    }
}

/// The XCR list at `o`: empty where its header does not fit, without entries
/// where its count is not between 1 and 16.
pub open spec fn xcrs_model(d: Seq<u8>, o: int) -> XcrsModel {
    if o + 24 <= d.len() {
        let n = le32(d, o);
        XcrsModel {
            nr_xcrs: n,
            flags: le32(d, o + 4),
            xcrs: Seq::new(
                16,
                |i: int|
                    if 1 <= n <= 16 && i < n {
                        xcr_entry(d, o, i)
                    } else {
                        zero_xcr()
                    },
            ),
        }
    } else {
        XcrsModel { nr_xcrs: 0, flags: 0, xcrs: Seq::new(16, |i: int| zero_xcr()) }
    }
}

/// An XCR list with XCR0 alone, and x87 alone in it.
pub open spec fn x87_xcrs() -> XcrsModel {
    XcrsModel {
        nr_xcrs: 1,
        flags: 0,
        xcrs: Seq::new(
            16,
            |i: int| KvmXcr { xcr: 0, reserved: 0, value: if i == 0 { 1 } else { 0 } },
        ),
    }
}

/// The first XCR list in `start..end`, or the x87 one where there is none.
pub open spec fn found_xcrs(d: Seq<u8>, start: int, end: int) -> XcrsModel {
    match first_in(xcrs_at(d), start, end - 24) {
        Some(i) => xcrs_model(d, i),
        None => x87_xcrs(),
    }
}

/// Reads the XCR list at `o`.
pub fn parse_xcrs(d: &[u8], o: usize) -> (r: KvmXcrs)
    ensures
        r@ == xcrs_model(d@, o as int),
{
    let len: usize = d.len();
    let mut xcrs: [KvmXcr; 16] = [KvmXcr { xcr: 0, reserved: 0, value: 0 };16];
    let mut nr_xcrs: u32 = 0;
    let mut flags: u32 = 0;
    if o <= len && len - o >= 24 {
        nr_xcrs = r32(d, o);
        flags = r32(d, o + 4);
        if nr_xcrs >= 1 && nr_xcrs <= 16 {
            let n: usize = nr_xcrs as usize;
            let mut i: usize = 0;
            while i < n
                invariant
                    len == d@.len(),
                    o + 24 <= len,
                    i <= n <= 16,
                    xcrs@.len() == 16,
                    forall|j: int|
                        0 <= j < 16 ==> xcrs@[j] == if j < i {
                            xcr_entry(d@, o as int, j)
                        } else {
                            zero_xcr()
                        },
                decreases n - i,
            {
                if (len - o - 8) / 16 > i {
                    let e: usize = o + 8 + i * 16;
                    xcrs[i] = KvmXcr { xcr: r32(d, e), reserved: r32(d, e + 4), value: r64(d, e + 8) };
                }
                i += 1;
            }
        }
    }
    let r = KvmXcrs { nr_xcrs, flags, xcrs };
    assert(r@ =~= xcrs_model(d@, o as int));
    r
}

/// Looks for XCRs in `search_start..search_end`. Without any, XCR0 has x87 alone.
fn find_and_parse_xcrs(data: &[u8], search_start: usize, search_end: usize) -> (r: KvmXcrs)
    requires
        search_end <= data@.len(),
    ensures
        r@ == found_xcrs(data@, search_start as int, search_end as int),
{
    let len: usize = data.len();
    let end: usize = search_end.saturating_sub(24);
    let mut i: usize = search_start;
    while i < end
        invariant
            len == data@.len(),
            search_end <= len,
            end == if search_end >= 24 { search_end - 24 } else { 0 },
            first_in(xcrs_at(data@), search_start as int, search_end - 24) == first_in(
                xcrs_at(data@),
                i as int,
                search_end - 24,
            ),
        decreases end - i,
    {
        if r32(data, i) == 1 && r32(data, i + 4) == 0 && r32(data, i + 8) == 0 && r32(data, i + 12)
            == 0 {
            let val: u64 = r64(data, i + 16);
            if val > 0 && val < 0x10000 && val & 1 != 0 {
                return parse_xcrs(data, i);
            }
        }
        i += 1;
    }
    let mut xcrs: [KvmXcr; 16] = [KvmXcr { xcr: 0, reserved: 0, value: 0 };16];
    xcrs[0] = KvmXcr { xcr: 0, reserved: 0, value: 1 };
    let r = KvmXcrs { nr_xcrs: 1, flags: 0, xcrs };
    assert(r@ =~= x87_xcrs());
    r
}

/// The general purpose registers at `o`.
pub open spec fn regs_model(d: Seq<u8>, o: int) -> KvmRegs {
    KvmRegs {
        rax: le64(d, o),
        rbx: le64(d, o + 8),
        rcx: le64(d, o + 16),
        rdx: le64(d, o + 24),
        rsi: le64(d, o + 32),
        rdi: le64(d, o + 40),
        rsp: le64(d, o + 48),
        rbp: le64(d, o + 56),
        r8: le64(d, o + 64),
        r9: le64(d, o + 72),
        r10: le64(d, o + 80),
        r11: le64(d, o + 88),
        r12: le64(d, o + 96),
        r13: le64(d, o + 104),
        r14: le64(d, o + 112),
        r15: le64(d, o + 120),
        rip: le64(d, o + 128),
        rflags: le64(d, o + 136),
    }
}

/// Reads the general purpose registers at `o`.
pub fn parse_regs(d: &[u8], o: usize) -> (r: KvmRegs)
    requires
        o + REGS_SIZE <= d.len(),
    ensures
        r == regs_model(d@, o as int),
{
    KvmRegs {
        rax: r64(d, o),
        rbx: r64(d, o + 8),
        rcx: r64(d, o + 16),
        rdx: r64(d, o + 24),
        rsi: r64(d, o + 32),
        rdi: r64(d, o + 40),
        rsp: r64(d, o + 48),
        rbp: r64(d, o + 56),
        r8: r64(d, o + 64),
        r9: r64(d, o + 72),
        r10: r64(d, o + 80),
        r11: r64(d, o + 88),
        r12: r64(d, o + 96),
        r13: r64(d, o + 104),
        r14: r64(d, o + 112),
        r15: r64(d, o + 120),
        rip: r64(d, o + 128),
        rflags: r64(d, o + 136),
    }
}

/// The segment register at `o`.
pub open spec fn seg_model(d: Seq<u8>, o: int) -> KvmSegment {
    KvmSegment {
        base: le64(d, o),
        limit: le32(d, o + 8),
        selector: le16(d, o + 12),
        type_: d[o + 14],
        present: d[o + 15],
        dpl: d[o + 16],
        db: d[o + 17],
        s: d[o + 18],
        l: d[o + 19],
        g: d[o + 20],
        avl: d[o + 21],
        unusable: d[o + 22],
        padding: d[o + 23],
    }
}

/// Reads the segment register at `o`.
pub fn parse_seg(d: &[u8], o: usize) -> (r: KvmSegment)
    requires
        o + 24 <= d.len(),
    ensures
        r == seg_model(d@, o as int),
{
    KvmSegment {
        base: r64(d, o),
        limit: r32(d, o + 8),
        selector: r16(d, o + 12),
        type_: d[o + 14],
        present: d[o + 15],
        dpl: d[o + 16],
        db: d[o + 17],
        s: d[o + 18],
        l: d[o + 19],
        g: d[o + 20],
        avl: d[o + 21],
        unusable: d[o + 22],
        padding: d[o + 23],
    }
}

/// The special registers whose parts start at the given offsets. CR8 and the
/// interrupt bitmap are not taken over.
pub open spec fn sregs_model(
    d: Seq<u8>,
    segs: int,
    gdt: int,
    idt: int,
    cr: int,
    efer: int,
    apic_base: int,
) -> KvmSregs {
    KvmSregs {
        cs: seg_model(d, segs),
        ds: seg_model(d, segs + 24),
        es: seg_model(d, segs + 48),
        fs: seg_model(d, segs + 72),
        gs: seg_model(d, segs + 96),
        ss: seg_model(d, segs + 120),
        tr: seg_model(d, segs + 144),
        ldt: seg_model(d, segs + 168),
        gdt: KvmDtable { base: le64(d, gdt), limit: le16(d, gdt + 8) },
        idt: KvmDtable { base: le64(d, idt), limit: le16(d, idt + 8) },
        cr0: le64(d, cr),
        cr2: le64(d, cr + 8),
        cr3: le64(d, cr + 16),
        cr4: le64(d, cr + 24),
        cr8: 0,
        efer: le64(d, efer),
        apic_base: le64(d, apic_base),
        interrupt_bitmap: [0, 0, 0, 0],
    }
}

/// Reads the special registers whose parts start at the given offsets.
pub fn parse_sregs(
    d: &[u8],
    segs: usize,
    gdt: usize,
    idt: usize,
    cr: usize,
    efer: usize,
    apic_base: usize,
) -> (r: KvmSregs)
    requires
        segs + 192 <= d.len(),
        gdt + 10 <= d.len(),
        idt + 10 <= d.len(),
        cr + 32 <= d.len(),
        efer + 8 <= d.len(),
        apic_base + 8 <= d.len(),
    ensures
        r == sregs_model(
            d@,
            segs as int,
            gdt as int,
            idt as int,
            cr as int,
            efer as int,
            apic_base as int,
        ),
{
    KvmSregs {
        cs: parse_seg(d, segs),
        ds: parse_seg(d, segs + 24),
        es: parse_seg(d, segs + 48),
        fs: parse_seg(d, segs + 72),
        gs: parse_seg(d, segs + 96),
        ss: parse_seg(d, segs + 120),
        tr: parse_seg(d, segs + 144),
        ldt: parse_seg(d, segs + 168),
        gdt: KvmDtable { base: r64(d, gdt), limit: r16(d, gdt + 8) },
        idt: KvmDtable { base: r64(d, idt), limit: r16(d, idt + 8) },
        cr0: r64(d, cr),
        cr2: r64(d, cr + 8),
        cr3: r64(d, cr + 16),
        cr4: r64(d, cr + 24),
        cr8: 0,
        efer: r64(d, efer),
        apic_base: r64(d, apic_base),
        interrupt_bitmap: [0, 0, 0, 0],
    }
}

/// A byte read as a signed one.
pub open spec fn signed_byte(b: u8) -> i8 {
    if b < 128 {
        b as i8
    } else {
        (b - 256) as i8
    }
}

/// The register page of the local APIC at `o`.
pub open spec fn lapic_model(d: Seq<u8>, o: int) -> Seq<i8> {
    Seq::new(1024, |i: int| signed_byte(d[o + i]))
}

/// Reads the register page of the local APIC at `o`.
pub fn parse_lapic(d: &[u8], o: usize) -> (r: KvmLapicState)
    requires
        o + 1024 <= d.len(),
    ensures
        r@ == lapic_model(d@, o as int),
{
    let mut regs: [i8; 1024] = [0;1024];
    let mut i: usize = 0;
    while i < 1024
        invariant
            o + 1024 <= d.len(),
            i <= 1024,
            forall|j: int| 0 <= j < i ==> regs@[j] == signed_byte(d@[o + j]),
        decreases 1024 - i,
    {
        let b: u8 = d[o + i];
        regs[i] = b as i8;
        assert(b as i8 == signed_byte(b)) by {
            assert(b < 128 ==> b as i8 == b) by (bit_vector);
            assert(b >= 128 ==> b as i8 == b - 256) by (bit_vector);
        }
        i += 1;
    }
    let r = KvmLapicState { regs };
    assert(r@ =~= lapic_model(d@, o as int));
    r
}

/// A register page with every register zero.
pub open spec fn zero_lapic() -> Seq<i8> {
    Seq::new(1024, |i: int| 0i8)
}

/// The redirection table of the IOAPIC at `o`, or zeros where it does not fit.
pub open spec fn redirtbl_model(d: Seq<u8>, o: int) -> Seq<u64> {
    Seq::new(
        24,
        |i: int|
            if o + 24 + 24 * 8 <= d.len() {
                le64(d, o + 24 + i * 8)
            } else {
                0
            },
    )
}

/// Reads the redirection table of the IOAPIC at `ioapic_off`, which follows a
/// header of 24 bytes.
pub fn parse_ioapic_redirtbl(d: &[u8], ioapic_off: usize) -> (r: [u64; 24])
    ensures
        r@ == redirtbl_model(d@, ioapic_off as int),
{
    let len: usize = d.len();
    let mut tbl: [u64; 24] = [0;24];
    if ioapic_off <= len && len - ioapic_off >= 216 {
        let mut i: usize = 0;
        while i < 24
            invariant
                len == d@.len(),
                ioapic_off + 216 <= len,
                i <= 24,
                forall|j: int| 0 <= j < i ==> tbl@[j] == le64(d@, ioapic_off + 24 + j * 8),
            decreases 24 - i,
        {
            tbl[i] = r64(d, ioapic_off + 24 + i * 8);
            i += 1;
        }
    }
    assert(tbl@ =~= redirtbl_model(d@, ioapic_off as int));
    tbl
}

/// The XSAVE area at `o`, as far as the data goes, in whole words; the rest is
/// zero.
pub open spec fn xsave_model(d: Seq<u8>, o: int) -> Seq<u32> {
    Seq::new(
        1024,
        |i: int|
            if o + i * 4 + 4 <= d.len() {
                le32(d, o + i * 4)
            } else {
                0
            },
    )
}

/// An XSAVE area of zeros.
pub open spec fn zero_xsave() -> Seq<u32> {
    Seq::new(1024, |i: int| 0u32)
}

/// Reads the XSAVE area at `o`.
pub fn parse_xsave(d: &[u8], o: usize) -> (r: KvmXsave)
    ensures
        r@ == xsave_model(d@, o as int),
{
    let len: usize = d.len();
    let avail: usize = len.saturating_sub(o);
    let size: usize = if avail < 4096 {
        avail
    } else {
        4096
    };
    let mut region: [u32; 1024] = [0;1024];
    let words: usize = size / 4;
    let mut i: usize = 0;
    while i < words
        invariant
            len == d@.len(),
            size <= 4096,
            size == 0 || o + size <= len,
            words == size / 4,
            i <= words,
            forall|j: int|
                0 <= j < 1024 ==> region@[j] == if j < i {
                    le32(d@, o + j * 4)
                } else {
                    0
                },
        decreases words - i,
    {
        region[i] = r32(d, o + i * 4);
        i += 1;
    }
    let r = KvmXsave { region };
    assert(r@ =~= xsave_model(d@, o as int));
    r
}

/// Whether a CPUID function number lies in a known range: basic, hypervisor or
/// extended.
pub open spec fn cpuid_func_like(f: u32) -> bool {
    ||| f <= 0x1F
    ||| 0x40000000 <= f <= 0x40000020
    ||| 0x80000000 <= f <= 0x80000020
}

/// The CPUID entry at `o`.
pub open spec fn cpuid_entry(d: Seq<u8>, o: int) -> KvmCpuidEntry2 {
    KvmCpuidEntry2 {
        function: le32(d, o),
        index: le32(d, o + 4),
        flags: le32(d, o + 8),
        eax: le32(d, o + 12),
        ebx: le32(d, o + 16),
        ecx: le32(d, o + 20),
        edx: le32(d, o + 24),
    }
}

/// The packed CPUID entries from `off` on, `stride` bytes apart. They end with the
/// data, before an unknown function, or where the function falls below `prev`, the
/// one before it: there the next vCPU's entries start.
pub open spec fn packed_entries(d: Seq<u8>, off: int, stride: int, prev: u32) -> Seq<
    KvmCpuidEntry2,
>
    decreases d.len() - off,
{
    let func = le32(d, off);
    if stride <= 0 || off + stride > d.len() || !cpuid_func_like(func) || func < prev {
        seq![]
    } else {
        seq![cpuid_entry(d, off)] + packed_entries(d, off + stride, stride, func)
    }
}

/// The CPUID entries from `off` on, `stride` bytes apart, each behind a header
/// that gives its size of 0x28 bytes. They end with the data or before another
/// header.
pub open spec fn headed_entries(d: Seq<u8>, off: int, stride: int) -> Seq<KvmCpuidEntry2>
    decreases d.len() - off,
{
    if stride <= 0 || off + stride > d.len() || le64(d, off) != 0x28 {
        seq![]
    } else {
        seq![cpuid_entry(d, off + 8)] + headed_entries(d, off + stride, stride)
    }
}

/// Whether the first four letters of a CPU vendor stand at `i`: "Auth" or "Genu".
pub open spec fn vendor_at(d: Seq<u8>, i: int) -> bool {
    ||| d[i] == 0x41 && d[i + 1] == 0x75 && d[i + 2] == 0x74 && d[i + 3] == 0x68
    ||| d[i] == 0x47 && d[i + 1] == 0x65 && d[i + 2] == 0x6e && d[i + 3] == 0x75
}

/// The packed list whose leaf 0 names its vendor at `i`, if there is one of at
/// least five entries.
pub open spec fn packed_list_at(d: Seq<u8>, i: int) -> Option<Seq<KvmCpuidEntry2>> {
    if i >= 16 && le32(d, i - 16) == 0 && le32(d, i - 12) == 0 && packed_entries(
        d,
        i - 16,
        40,
        0,
    ).len() >= 5 {
        Some(packed_entries(d, i - 16, 40, 0))
    } else {
        None
    }
}

/// The list with headers whose leaf 0 names its vendor at `i`, if there is one of
/// at least five entries.
pub open spec fn headed_list_at(d: Seq<u8>, i: int) -> Option<Seq<KvmCpuidEntry2>> {
    if i >= 24 && i + 24 <= d.len() && le64(d, i - 24) == 0x28 && le32(d, i - 16) == 0 && le32(
        d,
        i - 12,
    ) == 0 && headed_entries(d, i - 24, 48).len() >= 5 {
        Some(headed_entries(d, i - 24, 48))
    } else {
        None
    }
}

/// The CPUID list whose leaf 0 names its vendor at `i`, in either format.
pub open spec fn cpuid_list_at(d: Seq<u8>, i: int) -> Option<Seq<KvmCpuidEntry2>> {
    if !vendor_at(d, i) {
        None
    } else if packed_list_at(d, i) is Some {
        packed_list_at(d, i)
    } else {
        headed_list_at(d, i)
    }
}

/// Whether a CPUID list names its vendor at a position.
pub open spec fn cpuid_at(d: Seq<u8>) -> spec_fn(int) -> bool {
    |i: int| cpuid_list_at(d, i) is Some
}

/// The CPUID entries of the first vCPU, none where no list is found.
pub open spec fn cpuid_model(d: Seq<u8>) -> Seq<KvmCpuidEntry2> {
    match first_in(cpuid_at(d), 0, d.len() - 4) {
        Some(i) => cpuid_list_at(d, i).unwrap(),
        None => seq![],
    }
}

fn valid_cpuid_func(f: u32) -> (r: bool)
    ensures
        r == cpuid_func_like(f),
{
    f <= 0x1F || (0x40000000 <= f && f <= 0x40000020) || (0x80000000 <= f && f <= 0x80000020)
}

fn parse_cpuid_entry(d: &[u8], o: usize) -> (r: KvmCpuidEntry2)
    requires
        o + 28 <= d.len(),
    ensures
        r == cpuid_entry(d@, o as int),
{
    KvmCpuidEntry2 {
        function: r32(d, o),
        index: r32(d, o + 4),
        flags: r32(d, o + 8),
        eax: r32(d, o + 12),
        ebx: r32(d, o + 16),
        ecx: r32(d, o + 20),
        edx: r32(d, o + 24),
    }
}

/// Collects CPUID entries that stand packed, `stride` bytes apart, up to the next
/// vCPU's.
pub fn collect_cpuid_entries(data: &[u8], leaf0_off: usize, stride: usize) -> (r: Vec<
    KvmCpuidEntry2,
>)
    requires
        stride >= 28,
    ensures
        r@ == packed_entries(data@, leaf0_off as int, stride as int, 0),
{
    let len: usize = data.len();
    let mut entries: Vec<KvmCpuidEntry2> = Vec::new();
    let mut off: usize = leaf0_off;
    let mut prev_func: u32 = 0;
    while off <= len && len - off >= stride
        invariant_except_break
            entries@ + packed_entries(data@, off as int, stride as int, prev_func)
                == packed_entries(data@, leaf0_off as int, stride as int, 0),
        invariant
            len == data@.len(),
            stride >= 28,
        ensures
            entries@ == packed_entries(data@, leaf0_off as int, stride as int, 0),
        decreases len - off,
    {
        let func: u32 = r32(data, off);
        if !valid_cpuid_func(func) || func < prev_func {
            assert(entries@ + Seq::<KvmCpuidEntry2>::empty() =~= entries@);
            break;
        }
        let ghost before = entries@;
        let entry = parse_cpuid_entry(data, off);
        entries.push(entry);
        proof {
            let rest = packed_entries(data@, off + stride, stride as int, func);
            assert(before + (seq![entry] + rest) =~= entries@ + rest);
        }
        prev_func = func;
        off += stride;
    }
    entries
}

/// Collects CPUID entries that stand behind headers, `stride` bytes apart.
pub fn collect_cpuid_entries_old(data: &[u8], header0_off: usize, stride: usize) -> (r: Vec<
    KvmCpuidEntry2,
>)
    requires
        stride >= 36,
    ensures
        r@ == headed_entries(data@, header0_off as int, stride as int),
{
    let len: usize = data.len();
    let mut entries: Vec<KvmCpuidEntry2> = Vec::new();
    let mut off: usize = header0_off;
    while off <= len && len - off >= stride
        invariant_except_break
            entries@ + headed_entries(data@, off as int, stride as int) == headed_entries(
                data@,
                header0_off as int,
                stride as int,
            ),
        invariant
            len == data@.len(),
            stride >= 36,
        ensures
            entries@ == headed_entries(data@, header0_off as int, stride as int),
        decreases len - off,
    {
        if r64(data, off) != 0x28 {
            assert(entries@ + Seq::<KvmCpuidEntry2>::empty() =~= entries@);
            break;
        }
        let ghost before = entries@;
        let entry = parse_cpuid_entry(data, off + 8);
        entries.push(entry);
        proof {
            let rest = headed_entries(data@, off + stride, stride as int);
            assert(before + (seq![entry] + rest) =~= entries@ + rest);
        }
        off += stride;
    }
    entries
}

/// Reads the CPUID entries of the first vCPU. Newer snapshots hold them packed,
/// older ones behind headers; leaf 0 is recognised by the vendor name in it.
pub fn parse_cpuid(data: &[u8]) -> (r: Vec<KvmCpuidEntry2>)
    ensures
        r@ == cpuid_model(data@),
{
    let len: usize = data.len();
    let end: usize = len.saturating_sub(4);
    let mut i: usize = 0;
    while i < end
        invariant
            len == data@.len(),
            end == if len >= 4 { len - 4 } else { 0 },
            first_in(cpuid_at(data@), 0, len - 4) == first_in(cpuid_at(data@), i as int, len - 4),
        decreases end - i,
    {
        let auth: bool = data[i] == 0x41 && data[i + 1] == 0x75 && data[i + 2] == 0x74 && data[i
            + 3] == 0x68;
        let genu: bool = data[i] == 0x47 && data[i + 1] == 0x65 && data[i + 2] == 0x6e && data[i
            + 3] == 0x75;
        if auth || genu {
            if i >= 16 && r32(data, i - 16) == 0 && r32(data, i - 12) == 0 {
                let entries = collect_cpuid_entries(data, i - 16, 40);
                if entries.len() >= 5 {
                    return entries;
                }
            }
            if i >= 24 && len - i >= 24 && r64(data, i - 24) == 0x28 && r32(data, i - 16) == 0
                && r32(data, i - 12) == 0 {
                let entries = collect_cpuid_entries_old(data, i - 24, 48);
                if entries.len() >= 5 {
                    return entries;
                }
            }
        }
        i += 1;
    }
    Vec::new()
}

/// Whether three addresses can be those of a virtqueue of 256 entries: page
/// aligned, at 1 MiB or above, one page apart, and within the first GiB.
pub open spec fn queue_addrs_like(desc: u64, avail: u64, used: u64) -> bool {
    &&& desc % 0x1000 == 0
    &&& desc >= 0x100000
    &&& avail == desc + 0x1000
    &&& used == avail + 0x1000
    &&& used <= 0x40000000
}

/// Whether three addresses can be those of a virtqueue of 256 entries.
pub fn valid_queue_addrs(desc: u64, avail: u64, used: u64) -> (r: bool)
    ensures
        r == queue_addrs_like(desc, avail, used),
{
    assert(forall|x: u64| #[trigger] (x & 0xFFF) == x % 0x1000) by (bit_vector);
    if desc == 0 || avail == 0 || used == 0 {
        return false;
    }
    if desc & 0xFFF != 0 || avail & 0xFFF != 0 || used & 0xFFF != 0 {
        return false;
    }
    if desc > 0x40000000 || avail > 0x40000000 || used > 0x40000000 {
        return false;
    }
    if desc < 0x100000 {
        return false;
    }
    if !(desc < avail && avail < used) {
        return false;
    }
    avail == desc + 0x1000 && used == avail + 0x1000
}

/// The block device's queue at the given addresses. The rest is the same in every
/// snapshot.
pub open spec fn queue_model(desc: u64, avail: u64, used: u64) -> VirtioQueueAddrs {
    VirtioQueueAddrs {
        desc_table: desc,
        avail_ring: avail,
        used_ring: used,
        queue_size: 256,
        mmio_base: 0xC0001000,
        gsi: 5,
    }
}

/// Whether queue addresses stand at a position in the newer encoding: each of the
/// three in 32 bits behind a marker byte.
pub open spec fn tagged_queue_at(d: Seq<u8>) -> spec_fn(int) -> bool {
    |i: int|
        {
            &&& d[i] == 2
            &&& d[i + 5] == 2
            &&& d[i + 10] == 2
            &&& queue_addrs_like(
                le32(d, i + 1) as u64,
                le32(d, i + 6) as u64,
                le32(d, i + 11) as u64,
            )
        }
}

/// Whether queue addresses stand at a position in the older encoding: three
/// 64-bit numbers.
pub open spec fn raw_queue_at(d: Seq<u8>) -> spec_fn(int) -> bool {
    |i: int| queue_addrs_like(le64(d, i), le64(d, i + 8), le64(d, i + 16))
}

/// The block device's queue: the first in the newer encoding, else the first in
/// the older one.
pub open spec fn virtio_queue_model(d: Seq<u8>) -> Option<VirtioQueueAddrs> {
    match first_in(tagged_queue_at(d), 0, d.len() - 19) {
        Some(i) => Some(
            queue_model(le32(d, i + 1) as u64, le32(d, i + 6) as u64, le32(d, i + 11) as u64),
        ),
        None => match first_in(raw_queue_at(d), 0, d.len() - 24) {
            Some(i) => Some(queue_model(le64(d, i), le64(d, i + 8), le64(d, i + 16))),
            None => None,
        },
    }
}

/// Finds the addresses of the block device's queue.
pub fn parse_virtio_queue_addrs(data: &[u8]) -> (r: Option<VirtioQueueAddrs>)
    ensures
        r == virtio_queue_model(data@),
{
    let len: usize = data.len();
    let end: usize = len.saturating_sub(19);
    let mut i: usize = 0;
    while i < end
        invariant
            len == data@.len(),
            end == if len >= 19 { len - 19 } else { 0 },
            first_in(tagged_queue_at(data@), 0, len - 19) == first_in(
                tagged_queue_at(data@),
                i as int,
                len - 19,
            ),
        decreases end - i,
    {
        if data[i] == 0x02 && data[i + 5] == 0x02 && data[i + 10] == 0x02 {
            let desc: u64 = r32(data, i + 1) as u64;
            let avail: u64 = r32(data, i + 6) as u64;
            let used: u64 = r32(data, i + 11) as u64;
            if valid_queue_addrs(desc, avail, used) {
                return Some(
                    VirtioQueueAddrs {
                        desc_table: desc,
                        avail_ring: avail,
                        used_ring: used,
                        queue_size: 256,
                        mmio_base: 0xC0001000,
                        gsi: 5,
                    },
                );
            }
        }
        i += 1;
    }
    let end: usize = len.saturating_sub(24);
    let mut i: usize = 0;
    while i < end
        invariant
            len == data@.len(),
            end == if len >= 24 { len - 24 } else { 0 },
            first_in(tagged_queue_at(data@), 0, len - 19) is None,
            first_in(raw_queue_at(data@), 0, len - 24) == first_in(
                raw_queue_at(data@),
                i as int,
                len - 24,
            ),
        decreases end - i,
    {
        let desc: u64 = r64(data, i);
        let avail: u64 = r64(data, i + 8);
        let used: u64 = r64(data, i + 16);
        if valid_queue_addrs(desc, avail, used) {
            return Some(
                VirtioQueueAddrs {
                    desc_table: desc,
                    avail_ring: avail,
                    used_ring: used,
                    queue_size: 256,
                    mmio_base: 0xC0001000,
                    gsi: 5,
                },
            );
        }
        i += 1;
    }
    None
}

/// Whether a model specific register is one that a fork restores, with a value
/// that it can have: the system call targets, the kernel GS base, and the
/// paravirtual clock.
pub open spec fn msr_wanted(index: u32, value: u64) -> bool {
    ||| index == 0xc0000081 && value != 0
    ||| index == 0xc0000082 && (value > 0xffffffff80000000 || value == 0)
    ||| index == 0xc0000083 && (value > 0xffffffff80000000 || value == 0)
    ||| index == 0xc0000084
    ||| index == 0xc0000102
    ||| index == 0x4b564d00 && 0 < value < 0x100000000
    ||| index == 0x4b564d01 && 0 < value < 0x100000000
}

/// Whether an MSR entry to restore stands at `i`.
pub open spec fn msr_at(d: Seq<u8>, i: int) -> bool {
    le32(d, i + 4) == 0 && msr_wanted(le32(d, i), le64(d, i + 8))
}

/// Everything in `i..hi` that reads as an MSR entry to restore, in order.
pub open spec fn msr_candidates(d: Seq<u8>, i: int, hi: int) -> Seq<KvmMsrEntry>
    decreases hi - i,
{
    if i >= hi {
        seq![]
    } else if msr_at(d, i) {
        seq![KvmMsrEntry { index: le32(d, i), reserved: 0, data: le64(d, i + 8) }]
            + msr_candidates(d, i + 1, hi)
    } else {
        msr_candidates(d, i + 1, hi)
    }
}

/// Whether an entry for the register `index` occurs in `s`.
pub open spec fn has_index(s: Seq<KvmMsrEntry>, index: u32) -> bool {
    exists|j: int| 0 <= j < s.len() && (#[trigger] s[j]).index == index
}

/// The entries of `s` that no later entry for the same register follows.
pub open spec fn last_of_each(s: Seq<KvmMsrEntry>) -> Seq<KvmMsrEntry>
    decreases s.len(),
{
    if s.len() == 0 {
        seq![]
    } else if has_index(s.drop_first(), s[0].index) {
        last_of_each(s.drop_first())
    } else {
        seq![s[0]] + last_of_each(s.drop_first())
    }
}

/// The MSR entries to restore: of each register the last that was found.
pub open spec fn msrs_model(d: Seq<u8>) -> Seq<KvmMsrEntry> {
    last_of_each(msr_candidates(d, 0, d.len() - 16))
}

fn wanted_msr(index: u32, value: u64) -> (r: bool)
    ensures
        r == msr_wanted(index, value),
{
    if index == 0xc0000081 {
        value != 0
    } else if index == 0xc0000082 || index == 0xc0000083 {
        value > 0xffffffff80000000 || value == 0
    } else if index == 0xc0000084 || index == 0xc0000102 {
        true
    } else if index == 0x4b564d00 || index == 0x4b564d01 {
        value != 0 && value < 0x100000000
    } else {
        false
    }
}

fn keep_last_of_each(entries: &Vec<KvmMsrEntry>) -> (r: Vec<KvmMsrEntry>)
    ensures
        r@ == last_of_each(entries@),
{
    let mut seen: HashSet<u32> = HashSet::new();
    let mut kept: Vec<KvmMsrEntry> = Vec::new();
    let mut k: usize = entries.len();
    assert(entries@.skip(k as int) =~= seq![]);
    assert(kept@.reverse() =~= seq![]);
    while k > 0
        invariant
            k <= entries@.len(),
            kept@.reverse() == last_of_each(entries@.skip(k as int)),
            forall|x: u32| #[trigger] seen@.contains(x) <==> has_index(entries@.skip(k as int), x),
        decreases k,
    {
        let e: KvmMsrEntry = entries[k - 1];
        let ghost old_tail = entries@.skip(k as int);
        let ghost tail = entries@.skip(k - 1);
        let ghost old_kept = kept@;
        let ghost old_seen = seen@;
        assert(tail.drop_first() =~= old_tail);
        assert(tail[0] == e);
        let fresh: bool = seen.insert(e.index);
        if fresh {
            kept.push(e);
            assert(kept@.reverse() =~= seq![e] + old_kept.reverse());
        }
        proof {
            assert forall|x: u32| #[trigger] seen@.contains(x) <==> has_index(tail, x) by {
                if has_index(old_tail, x) {
                    let j = choose|j: int| 0 <= j < old_tail.len() && (#[trigger] old_tail[j]).index == x;
                    assert(tail[j + 1] == old_tail[j]);
                }
                if has_index(tail, x) && x != e.index {
                    let j = choose|j: int| 0 <= j < tail.len() && (#[trigger] tail[j]).index == x;
                    assert(old_tail[j - 1] == tail[j]);
                    assert(has_index(old_tail, x));
                }
                assert(old_seen.contains(x) <==> has_index(old_tail, x));
            }
        }
        k -= 1;
    }
    assert(entries@.skip(0) =~= entries@);
    let ghost all = kept@;
    let mut r: Vec<KvmMsrEntry> = Vec::new();
    while kept.len() > 0
        invariant
            kept@.len() <= all.len(),
            kept@ == all.take(kept@.len() as int),
            r@ == all.reverse().take(all.len() - kept@.len()),
        decreases kept@.len(),
    {
        let ghost before = kept@;
        if let Some(e) = kept.pop() {
            r.push(e);
            assert(e == all.reverse()[all.len() - before.len()]);
            assert(kept@ =~= all.take(kept@.len() as int));
            assert(r@ =~= all.reverse().take(all.len() - kept@.len()));
        }
    }
    assert(r@ =~= all.reverse());
    r
}

/// Reads the model specific registers that a fork restores.
pub fn parse_msrs(data: &[u8]) -> (r: Vec<KvmMsrEntry>)
    ensures
        r@ == msrs_model(data@),
{
    let len: usize = data.len();
    let end: usize = len.saturating_sub(16);
    let mut entries: Vec<KvmMsrEntry> = Vec::new();
    let mut i: usize = 0;
    assert(entries@ + msr_candidates(data@, 0, len - 16) =~= msr_candidates(data@, 0, len - 16));
    while i < end
        invariant
            len == data@.len(),
            end == if len >= 16 { len - 16 } else { 0 },
            i <= end,
            entries@ + msr_candidates(data@, i as int, len - 16) == msr_candidates(
                data@,
                0,
                len - 16,
            ),
        decreases end - i,
    {
        let index: u32 = r32(data, i);
        if r32(data, i + 4) == 0 {
            let value: u64 = r64(data, i + 8);
            if wanted_msr(index, value) {
                let ghost before = entries@;
                let e = KvmMsrEntry { index, reserved: 0, data: value };
                entries.push(e);
                proof {
                    let rest = msr_candidates(data@, i + 1, len - 16);
                    assert(before + (seq![e] + rest) =~= entries@ + rest);
                }
            }
        }
        i += 1;
    }
    assert(entries@ + Seq::<KvmMsrEntry>::empty() =~= entries@);
    keep_last_of_each(&entries)
}

/// The special registers that start at `segs`.
pub open spec fn sregs_at(d: Seq<u8>, segs: int) -> KvmSregs {
    sregs_model(d, segs, segs + 192, segs + 208, segs + 224, segs + 264, segs + 272)
}

/// The XSAVE area at `o`, or zeros without one.
pub open spec fn xsave_or_zero(d: Seq<u8>, o: Option<int>) -> Seq<u32> {
    match o {
        Some(i) => xsave_model(d, i),
        None => zero_xsave(),
    }
}

/// The XCRs between the end of the special registers that start at `segs` and the
/// XSAVE area, or the end of the data without one.
pub open spec fn xcrs_between(d: Seq<u8>, segs: int, xsave: Option<int>) -> XcrsModel {
    found_xcrs(
        d,
        segs + SREGS_SIZE,
        match xsave {
            Some(i) => i,
            None => d.len() as int,
        },
    )
}

/// The XSAVE area of vCPU `i`, where the first vCPU has its own at `first`.
pub open spec fn vcpu_xsave(d: Seq<u8>, first: Option<int>, i: int) -> Option<int> {
    match first {
        Some(o) => nth_xsave_offset(d, o, i as nat),
        None => None,
    }
}

/// The state of vCPU `i`, from where the state of the first one stands: its blocks
/// follow those of the vCPUs before it.
#[verifier::opaque]
pub open spec fn secondary_model(
    d: Seq<u8>,
    regs: int,
    segs: int,
    lapic: int,
    xsave: Option<int>,
    i: int,
) -> SecondaryVcpuModel {
    let lapic_i = lapic + i * 1024;
    let xsave_i = vcpu_xsave(d, xsave, i);
    SecondaryVcpuModel {
        regs: regs_model(d, regs + i * REGS_SIZE),
        sregs: sregs_at(d, segs + i * SREGS_SIZE),
        lapic: if lapic_i + 1024 <= d.len() {
            lapic_model(d, lapic_i)
        } else {
            zero_lapic()
        },
        xcrs: xcrs_between(d, segs + i * SREGS_SIZE, xsave_i),
        xsave: xsave_or_zero(d, xsave_i),
    }
}

/// What a snapshot says once its first structures are found: the segment
/// registers at `segs`, the general purpose ones at `regs`.
pub open spec fn found_vmstate(
    d: Seq<u8>,
    segs: int,
    regs: int,
    ioapic: int,
    lapic: int,
) -> VmStateModel {
    let xsave = xsave_offset(d, segs + EFER_TO_SEGS);
    VmStateModel {
        regs: regs_model(d, regs),
        sregs: sregs_at(d, segs),
        msrs: msrs_model(d),
        lapic: lapic_model(d, lapic),
        ioapic_redirtbl: redirtbl_model(d, ioapic),
        xcrs: xcrs_between(d, segs, xsave),
        xsave: xsave_or_zero(d, xsave),
        cpuid_entries: cpuid_model(d),
        virtio_queue: virtio_queue_model(d),
        secondary_vcpus: Seq::new(
            (vcpu_count(d, regs, segs) - 1) as nat,
            |i: int| secondary_model(d, regs, segs, lapic, xsave, i + 1),
        ),
    }
}

/// Whether the special registers of all `vcpus` vCPUs lie within the data.
pub open spec fn sregs_fit(d: Seq<u8>, segs: int, vcpus: nat) -> bool {
    segs + (vcpus - 1) * SREGS_SIZE + 280 <= d.len()
}

/// What a snapshot says, or why it cannot be read.
pub open spec fn vmstate_model(d: Seq<u8>) -> Result<VmStateModel, VmStateError> {
    match efer_offset(d) {
        None => Err(VmStateError::EferNotFound),
        Some(efer) => {
            let segs = efer - EFER_TO_SEGS;
            match first_regs_offset(d, segs) {
                Err(e) => Err(e),
                Ok(regs) => match (ioapic_offset(d), lapic_offset(d)) {
                    (None, _) => Err(VmStateError::IoapicNotFound),
                    (_, None) => Err(VmStateError::LapicNotFound),
                    (Some(ioapic), Some(lapic)) => if sregs_fit(
                        d,
                        segs,
                        vcpu_count(d, regs, segs),
                    ) {
                        Ok(found_vmstate(d, segs, regs, ioapic, lapic))
                    } else {
                        Err(VmStateError::SregsOutOfRange)
                    },
                },
            }
        },
    }
}

/// An offset found by a search, as the model has it.
pub open spec fn offset_model(o: Option<usize>) -> Option<int> {
    match o {
        Some(i) => Some(i as int),
        None => None,
    }
}

fn parse_sregs_at(data: &[u8], segs_off: usize) -> (r: KvmSregs)
    requires
        segs_off + 280 <= data.len(),
    ensures
        r == sregs_at(data@, segs_off as int),
{
    let efer_off: usize = segs_off + EFER_TO_SEGS;
    parse_sregs(
        data,
        segs_off,
        efer_off - EFER_TO_GDT,
        efer_off - EFER_TO_IDT,
        efer_off - EFER_TO_CR,
        efer_off,
        efer_off + 8,
    )
}

fn xsave_or_default(data: &[u8], o: Option<usize>) -> (r: KvmXsave)
    ensures
        r@ == xsave_or_zero(data@, offset_model(o)),
{
    match o {
        Some(i) => parse_xsave(data, i),
        None => {
            let r = KvmXsave { region: [0;1024] };
            assert(r@ =~= zero_xsave());
            r
        },
    }
}

/// Reads the state of vCPU `i` from where the state of the first one stands.
#[verifier::rlimit(30)]
fn parse_secondary(
    data: &[u8],
    regs_off: usize,
    segs_off: usize,
    lapic_off: usize,
    xsave_off: Option<usize>,
    i: usize,
) -> (r: SecondaryVcpuState)
    requires
        regs_off + i * REGS_SIZE + REGS_SIZE <= data.len(),
        segs_off + i * SREGS_SIZE + 280 <= data.len(),
        lapic_off + 1024 <= data.len(),
        xsave_off matches Some(o) ==> o <= data.len(),
    ensures
        r@ == secondary_model(
            data@,
            regs_off as int,
            segs_off as int,
            lapic_off as int,
            offset_model(xsave_off),
            i as int,
        ),
{
    reveal(secondary_model);
    let len: usize = data.len();
    let sec_regs_off: usize = regs_off + i * REGS_SIZE;
    let sec_segs_off: usize = segs_off + i * SREGS_SIZE;
    let sec_efer_off: usize = sec_segs_off + EFER_TO_SEGS;
    let sec_xsave_off: Option<usize> = match xsave_off {
        Some(o) => find_nth_xsave(data, o, i),
        None => None,
    };
    let xcrs_end: usize = match sec_xsave_off {
        Some(o) => o,
        None => len,
    };
    let lapic = if i <= (len - 1024 - lapic_off) / 1024 {
        parse_lapic(data, lapic_off + i * 1024)
    } else {
        let zero = KvmLapicState { regs: [0;1024] };
        assert(zero@ =~= zero_lapic());
        zero
    };
    SecondaryVcpuState {
        regs: parse_regs(data, sec_regs_off),
        sregs: parse_sregs_at(data, sec_segs_off),
        lapic,
        xcrs: find_and_parse_xcrs(data, sec_efer_off.saturating_add(48), xcrs_end),
        xsave: xsave_or_default(data, sec_xsave_off),
    }
}

/// Reads the state of the vCPUs other than the first.
fn parse_secondary_vcpus(
    data: &[u8],
    regs_off: usize,
    segs_off: usize,
    lapic_off: usize,
    xsave_off: Option<usize>,
    vcpus: usize,
) -> (r: Vec<SecondaryVcpuState>)
    requires
        vcpus >= 1,
        vcpus > 1 ==> regs_off + vcpus * REGS_SIZE <= data.len(),
        segs_off + (vcpus - 1) * SREGS_SIZE + 280 <= data.len(),
        lapic_off + 1024 <= data.len(),
        xsave_off matches Some(o) ==> o <= data.len(),
    ensures
        r@.map_values(|v: SecondaryVcpuState| v@) == Seq::new(
            (vcpus - 1) as nat,
            |i: int|
                secondary_model(
                    data@,
                    regs_off as int,
                    segs_off as int,
                    lapic_off as int,
                    offset_model(xsave_off),
                    i + 1,
                ),
        ),
{
    let mut r: Vec<SecondaryVcpuState> = Vec::new();
    let mut i: usize = 1;
    while i < vcpus
        invariant
            1 <= i <= vcpus,
            vcpus > 1 ==> regs_off + vcpus * REGS_SIZE <= data.len(),
            segs_off + (vcpus - 1) * SREGS_SIZE + 280 <= data.len(),
            lapic_off + 1024 <= data.len(),
            xsave_off matches Some(o) ==> o <= data.len(),
            r@.len() == i - 1,
            forall|k: int|
                0 <= k < i - 1 ==> (#[trigger] r@[k])@ == secondary_model(
                    data@,
                    regs_off as int,
                    segs_off as int,
                    lapic_off as int,
                    offset_model(xsave_off),
                    k + 1,
                ),
        decreases vcpus - i,
    {
        let vcpu = parse_secondary(data, regs_off, segs_off, lapic_off, xsave_off, i);
        r.push(vcpu);
        i += 1;
    }
    r
}

/// Reads a snapshot.
#[verifier::rlimit(30)]
pub fn parse_vmstate(data: &[u8]) -> (r: Result<ParsedVmState, VmStateError>)
    ensures
        match r {
            Ok(state) => vmstate_model(data@) == Ok::<VmStateModel, VmStateError>(state@),
            Err(e) => vmstate_model(data@) == Err::<VmStateModel, VmStateError>(e),
        },
{
    let len: usize = data.len();
    let efer_off: usize = match find_efer(data) {
        Ok(o) => o,
        Err(e) => return Err(e),
    };
    proof {
        lemma_efer_offset(data@);
    }
    let segs_off: usize = efer_off - EFER_TO_SEGS;
    let regs_off: usize = match find_first_regs(data, segs_off) {
        Ok(o) => o,
        Err(e) => return Err(e),
    };
    let ioapic_off: usize = match find_ioapic(data) {
        Ok(o) => o,
        Err(e) => return Err(e),
    };
    let lapic_off: usize = match find_lapic(data) {
        Ok(o) => o,
        Err(e) => return Err(e),
    };
    let xsave_off: Option<usize> = find_xsave(data, efer_off);
    let xcrs_end: usize = match xsave_off {
        Some(o) => o,
        None => len,
    };
    let xcrs = find_and_parse_xcrs(data, efer_off.saturating_add(48), xcrs_end);
    proof {
        lemma_blocks_readable(data@, regs_off + REGS_SIZE, segs_off as int);
    }
    let vcpus: usize = count_vcpu_regs(data, regs_off, segs_off);
    if vcpus - 1 > (len - 280 - segs_off) / SREGS_SIZE {
        return Err(VmStateError::SregsOutOfRange);
    }
    let secondary_vcpus = parse_secondary_vcpus(
        data,
        regs_off,
        segs_off,
        lapic_off,
        xsave_off,
        vcpus,
    );
    Ok(
        ParsedVmState {
            regs: parse_regs(data, regs_off),
            sregs: parse_sregs_at(data, segs_off),
            msrs: parse_msrs(data),
            lapic: parse_lapic(data, lapic_off),
            ioapic_redirtbl: parse_ioapic_redirtbl(data, ioapic_off),
            xcrs,
            xsave: xsave_or_default(data, xsave_off),
            cpuid_entries: parse_cpuid(data),
            virtio_queue: parse_virtio_queue_addrs(data),
            secondary_vcpus,
        },
    )
}

} // verus!

//! What is read from a snapshot in which the kernel's structures stand at known places.

use vstd::prelude::*;

use crate::bytes::{le32, le64};
use crate::scan::{first_in, lemma_first_in, lemma_last_in};
use crate::vmm::kvm_types::{KvmRegs, KvmSregs, KvmXcr};
use crate::vmm::layout_laws::{
    enc16, enc32, enc64, enc_controls, enc_regs, enc_segments, enc_signed, enc_sregs, holds,
    joined, law_enc64_le64, law_lapic_read_back, law_le16, law_le32, law_le64,
    law_redirtbl_read_back, law_regs_read_back, law_sregs_read_back, law_xsave_read_back,
    lemma_holds_within, lemma_joined_even, lemma_lens,
};
use crate::vmm::vmstate::{
    blocks_from, efer_at, efer_offset, first_block, first_regs_offset, found_vmstate, found_xcrs,
    ioapic_at, ioapic_offset, lapic_at, lapic_model, lapic_offset, last_rflags,
    lemma_efer_offset, nth_xsave_offset,
    regs_model, rflags_at, rflags_like, secondary_model, sregs_at, sregs_fit, vcpu_count,
    vmstate_model, xcr_entry, xcrs_at, xcrs_between, xcrs_model, xsave_at, xsave_offset,
    xsave_or_zero, VmStateError, VmStateModel,
};

verus! {

/// Whether a number is one of the values of EFER that a booted guest may have, and the
/// values that are looked for before it occur nowhere in the data.
pub open spec fn first_efer_value(d: Seq<u8>, v: u64) -> bool {
    ||| v == 0xD01
    ||| v == 0x501 && absent(d, 0xD01)
    ||| v == 0xD00 && absent(d, 0xD01) && absent(d, 0x501)
    ||| v == 0x500 && absent(d, 0xD01) && absent(d, 0x501) && absent(d, 0xD00)
}

/// Whether the eight bytes of a number stand nowhere in the data.
pub open spec fn absent(d: Seq<u8>, v: u64) -> bool {
    forall|j: int| !#[trigger] holds(d, j, enc64(v))
}

proof fn lemma_no_efer(d: Seq<u8>, v: u64)
    requires
        absent(d, v),
    ensures
        first_in(efer_at(d, v), 264, d.len() - 16) is None,
{
    lemma_first_in(efer_at(d, v), 264, d.len() - 16);
    if let Some(j) = first_in(efer_at(d, v), 264, d.len() - 16) {
        law_enc64_le64(d, j);
        assert(holds(d, j, enc64(v)));
    }
}

/// The EFER of a running guest is found: its value is one that a booted guest may have,
/// CR0 stands 40 bytes before it, with protection and paging on, and the architectural
/// APIC base behind it.
pub proof fn law_efer_found(d: Seq<u8>, i: int, efer: u64, cr0: u64, apic_base: u64)
    requires
        264 <= i,
        i + 16 < d.len(),
        holds(d, i, enc64(efer)),
        holds(d, i - 40, enc64(cr0)),
        holds(d, i + 8, enc64(apic_base)),
        cr0 & 0x80000001 == 0x80000001,
        cr0 < 0x1_0000_0000,
        apic_base & 0xFFFFF000 == 0xFEE00000,
        first_efer_value(d, efer),
        forall|j: int| 0 <= j < i ==> !#[trigger] holds(d, j, enc64(efer)),
    ensures
        efer_offset(d) == Some(i),
{
    law_le64(d, i, efer);
    law_le64(d, i - 40, cr0);
    law_le64(d, i + 8, apic_base);
    assert(cr0 >> 32 == 0) by (bit_vector)
        requires
            cr0 < 0x1_0000_0000,
    ;
    let p = efer_at(d, efer);
    assert(p(i));
    lemma_first_in(p, 264, d.len() - 16);
    assert(first_in(p, 264, d.len() - 16) == Some(i)) by {
        match first_in(p, 264, d.len() - 16) {
            Some(j) => {
                if j < i {
                    law_enc64_le64(d, j);
                    assert(holds(d, j, enc64(efer)));
                }
            },
            None => {},
        }
    }
    if efer != 0xD01 {
        lemma_no_efer(d, 0xD01);
        if efer != 0x501 {
            lemma_no_efer(d, 0x501);
            if efer != 0xD00 {
                lemma_no_efer(d, 0xD00);
            }
        }
    }
}

/// Whether a number cannot be RFLAGS: bit 1, which is always set, is clear, or a bit
/// above the 22 lowest is set.
pub open spec fn no_rflags(v: u64) -> bool {
    v & 2 == 0 || v >= 0x400000
}

/// Whether no number that can be RFLAGS stands at `o`.
pub open spec fn no_rflags_at(d: Seq<u8>, o: int) -> bool {
    forall|v: u64| #[trigger] holds(d, o, enc64(v)) ==> no_rflags(v)
}

/// Whether the register blocks of the vCPUs stand one behind the other from `regs` on,
/// each ending in a value that RFLAGS can have.
pub open spec fn blocks_at(d: Seq<u8>, regs: int, r: Seq<KvmRegs>) -> bool {
    forall|k: int|
        0 <= k < r.len() ==> {
            &&& holds(d, regs + 144 * k, joined(enc_regs(#[trigger] r[k])))
            &&& r[k].rflags & 2 != 0
            &&& r[k].rflags < 0x400000
        }
}

proof fn lemma_block_rflags(d: Seq<u8>, regs: int, r: Seq<KvmRegs>, k: int)
    requires
        blocks_at(d, regs, r),
        0 <= k < r.len(),
    ensures
        0 <= regs + 144 * k,
        regs + 144 * k + 144 <= d.len(),
        le64(d, regs + 144 * k + 136) == r[k].rflags,
        le64(d, regs + 144 * k + 128) == r[k].rip,
        rflags_like(le64(d, regs + 144 * k + 136)),
{
    let at = regs + 144 * k;
    let p = enc_regs(r[k]);
    assert(holds(d, at, joined(p)));
    law_regs_read_back(d, at, r[k]);
    lemma_lens();
    lemma_holds_within(d, at, joined(p));
    lemma_regs_len(r[k]);
}

proof fn lemma_regs_len(r: KvmRegs)
    ensures
        joined(enc_regs(r)).len() == 144,
{
    lemma_lens();
    let p = enc_regs(r);
    assert forall|i: int| 0 <= i < p.len() implies (#[trigger] p[i]).len() == 8 by {}
    lemma_joined_even(p, 8);
}

proof fn lemma_first_of_blocks(d: Seq<u8>, regs: int, r: Seq<KvmRegs>, k: int)
    requires
        blocks_at(d, regs, r),
        0 <= k < r.len(),
        regs >= 144 ==> no_rflags_at(d, regs - 8),
    ensures
        first_block(d, regs + 144 * k) == regs,
    decreases k,
{
    lemma_block_rflags(d, regs, r, k);
    if k > 0 {
        lemma_block_rflags(d, regs, r, k - 1);
        lemma_first_of_blocks(d, regs, r, k - 1);
    } else if regs >= 144 {
        law_enc64_le64(d, regs - 8);
        assert(holds(d, regs - 8, enc64(le64(d, regs - 8))));
    }
}

proof fn lemma_count_of_blocks(d: Seq<u8>, regs: int, r: Seq<KvmRegs>, segs: int, k: int)
    requires
        blocks_at(d, regs, r),
        0 <= k <= r.len(),
        segs - 56 <= regs + 144 * r.len() < segs,
    ensures
        blocks_from(d, regs + 144 * k, segs) == r.len() - k,
    decreases r.len() - k,
{
    if k < r.len() {
        lemma_block_rflags(d, regs, r, k);
        lemma_count_of_blocks(d, regs, r, segs, k + 1);
    }
}

/// The register blocks of all vCPUs are found: they stand one behind the other, the last
/// one ends less than 57 bytes before the segment registers, and nothing in between, nor
/// right before the first of them, can be RFLAGS.
pub proof fn law_regs_found(d: Seq<u8>, segs: int, regs: int, r: Seq<KvmRegs>)
    requires
        r.len() > 0,
        blocks_at(d, regs, r),
        r.last().rip != 0,
        segs - 56 <= regs + 144 * r.len() < segs,
        forall|pos: int|
            regs + 144 * r.len() - 8 < pos < segs - 8 ==> #[trigger] no_rflags_at(d, pos),
        regs >= 144 ==> no_rflags_at(d, regs - 8),
        segs <= d.len(),
    ensures
        first_regs_offset(d, segs) == Ok::<int, VmStateError>(regs),
        vcpu_count(d, regs, segs) == r.len(),
{
    let last = r.len() - 1;
    let rflags = regs + 144 * r.len() - 8;
    lemma_block_rflags(d, regs, r, last);
    let lo = if segs >= 64 {
        segs - 64
    } else {
        0
    };
    let p = rflags_at(d);
    lemma_last_in(p, lo, segs - 8);
    assert(p(rflags));
    assert(last_rflags(d, segs) == Some(rflags)) by {
        match last_rflags(d, segs) {
            Some(pos) => {
                if pos > rflags {
                    assert(no_rflags_at(d, pos));
                    law_enc64_le64(d, pos);
                    assert(holds(d, pos, enc64(le64(d, pos))));
                }
            },
            None => {},
        }
    }
    lemma_first_of_blocks(d, regs, r, last);
    lemma_block_rflags(d, regs, r, 0);
    lemma_count_of_blocks(d, regs, r, segs, 1);
}

/// The IOAPIC is found by its base address, where the first entry of its redirection
/// table is small.
pub proof fn law_ioapic_found(d: Seq<u8>, i: int, entry: u64)
    requires
        0 <= i,
        i + 216 < d.len(),
        holds(d, i, enc64(0xFEC00000)),
        holds(d, i + 24, enc64(entry)),
        entry < 0x100000,
        forall|j: int| 0 <= j < i ==> !#[trigger] holds(d, j, enc64(0xFEC00000)),
    ensures
        ioapic_offset(d) == Some(i),
{
    law_le64(d, i, 0xFEC00000);
    law_le64(d, i + 24, entry);
    let p = ioapic_at(d);
    assert(p(i));
    lemma_first_in(p, 0, d.len() - 216);
    match first_in(p, 0, d.len() - 216) {
        Some(j) => {
            if j < i {
                law_enc64_le64(d, j);
                assert(holds(d, j, enc64(0xFEC00000)));
            }
        },
        None => {},
    }
}

/// Whether a number is the version register of a local APIC: version 0x14 with five or
/// six entries in its vector table.
pub open spec fn lapic_version(v: u32) -> bool {
    v & 0xFF0FF == 0x50014 || v & 0xFF0FF == 0x60014
}

/// Whether no version register stands 0x30 bytes behind `o`.
pub open spec fn no_version_at(d: Seq<u8>, o: int) -> bool {
    forall|v: u32| #[trigger] holds(d, o + 0x30, enc32(v)) ==> !lapic_version(v)
}

/// A local APIC is found by its version register, where its first word is zero and the
/// enable bit of its spurious interrupt vector is set.
pub proof fn law_lapic_found(d: Seq<u8>, i: int, version: u32, spurious: u32)
    requires
        0 <= i,
        i + 1024 < d.len(),
        holds(d, i, enc32(0)),
        holds(d, i + 0x30, enc32(version)),
        holds(d, i + 0xF0, enc32(spurious)),
        lapic_version(version),
        spurious & 0x100 != 0,
        forall|j: int| 0 <= j < i ==> #[trigger] no_version_at(d, j),
    ensures
        lapic_offset(d) == Some(i),
{
    law_le32(d, i, 0);
    law_le32(d, i + 0x30, version);
    law_le32(d, i + 0xF0, spurious);
    let p = lapic_at(d);
    assert(p(i));
    lemma_first_in(p, 0, d.len() - 1024);
    match first_in(p, 0, d.len() - 1024) {
        Some(j) => {
            if j < i {
                assert(no_version_at(d, j));
                law_enc64_le64(d, j + 0x30);
                assert(holds(d, j + 0x30, enc32(le32(d, j + 0x30))));
            }
        },
        None => {},
    }
}

/// An XSAVE area is found by the default x87 control word, where its MXCSR has all
/// exceptions masked and no high bit set.
pub proof fn law_xsave_found(d: Seq<u8>, from: int, i: int, mxcsr: u32)
    requires
        0 <= from <= i,
        i + 4096 < d.len(),
        holds(d, i, enc16(0x037F)),
        holds(d, i + 24, enc32(mxcsr)),
        mxcsr & 0x1F80 == 0x1F80,
        mxcsr < 0x1_0000,
        forall|j: int| from <= j < i ==> !#[trigger] holds(d, j, enc16(0x037F)),
    ensures
        xsave_offset(d, from) == Some(i),
{
    law_le16(d, i, 0x037F);
    law_le32(d, i + 24, mxcsr);
    assert(mxcsr & 0xFFFF0000 == 0) by (bit_vector)
        requires
            mxcsr < 0x1_0000,
    ;
    let p = xsave_at(d);
    assert(p(i));
    lemma_first_in(p, from, d.len() - 4096);
    match first_in(p, from, d.len() - 4096) {
        Some(j) => {
            if j < i {
                law_enc64_le64(d, j);
                assert(holds(d, j, enc16(0x037F)));
            }
        },
        None => {},
    }
}

/// The XSAVE areas of the further vCPUs follow, each the first that stands behind the
/// one before it.
pub proof fn law_next_xsave_found(
    d: Seq<u8>,
    first: int,
    n: nat,
    prev: int,
    i: int,
    mxcsr: u32,
)
    requires
        nth_xsave_offset(d, first, n) == Some(prev),
        0 <= prev,
        prev + 4096 <= i,
        i + 4096 <= d.len(),
        holds(d, i, enc16(0x037F)),
        holds(d, i + 24, enc32(mxcsr)),
        mxcsr & 0x1F80 == 0x1F80,
        mxcsr < 0x1_0000,
        forall|j: int| prev + 4096 <= j < i ==> !#[trigger] holds(d, j, enc16(0x037F)),
    ensures
        nth_xsave_offset(d, first, n + 1) == Some(i),
{
    law_le16(d, i, 0x037F);
    law_le32(d, i + 24, mxcsr);
    assert(mxcsr & 0xFFFF0000 == 0) by (bit_vector)
        requires
            mxcsr < 0x1_0000,
    ;
    let p = xsave_at(d);
    assert(p(i));
    lemma_first_in(p, prev + 4096, d.len() - 4095);
    match first_in(p, prev + 4096, d.len() - 4095) {
        Some(j) => {
            if j < i {
                law_enc64_le64(d, j);
                assert(holds(d, j, enc16(0x037F)));
            }
        },
        None => {},
    }
}

/// XCR0 is found as a list of one register, which is register 0 with x87 on and none but
/// the 16 lowest features.
pub proof fn law_xcrs_found(d: Seq<u8>, start: int, end: int, i: int, value: u64)
    requires
        0 <= start <= i,
        i + 24 < end <= d.len(),
        holds(d, i, enc32(1)),
        holds(d, i + 4, enc32(0)),
        holds(d, i + 8, enc32(0)),
        holds(d, i + 12, enc32(0)),
        holds(d, i + 16, enc64(value)),
        value < 0x1_0000,
        value & 1 == 1,
        forall|j: int| start <= j < i ==> !#[trigger] holds(d, j, enc32(1)),
    ensures
        ({
            let m = found_xcrs(d, start, end);
            &&& m.nr_xcrs == 1
            &&& m.flags == 0
            &&& m.xcrs.len() == 16
            &&& m.xcrs[0] == (KvmXcr { xcr: 0, reserved: 0, value })
        }),
{
    law_le32(d, i, 1);
    law_le32(d, i + 4, 0);
    law_le32(d, i + 8, 0);
    law_le32(d, i + 12, 0);
    law_le64(d, i + 16, value);
    assert(value > 0) by (bit_vector)
        requires
            value & 1 == 1,
    ;
    let p = xcrs_at(d);
    assert(p(i));
    lemma_first_in(p, start, end - 24);
    match first_in(p, start, end - 24) {
        Some(j) => {
            if j < i {
                law_enc64_le64(d, j);
                assert(holds(d, j, enc32(1)));
            }
        },
        None => {},
    }
    assert(found_xcrs(d, start, end) == xcrs_model(d, i));
    assert(xcr_entry(d, i, 0) == (KvmXcr { xcr: 0, reserved: 0, value }));
}

/// Where no list of one register stands, XCR0 has x87 alone.
pub proof fn law_xcrs_default(d: Seq<u8>, start: int, end: int)
    requires
        0 <= start,
        end <= d.len(),
        forall|j: int| start <= j < end - 24 ==> !#[trigger] holds(d, j, enc32(1)),
    ensures
        ({
            let m = found_xcrs(d, start, end);
            &&& m.nr_xcrs == 1
            &&& m.flags == 0
            &&& m.xcrs.len() == 16
            &&& m.xcrs[0] == (KvmXcr { xcr: 0, reserved: 0, value: 1 })
        }),
{
    let p = xcrs_at(d);
    lemma_first_in(p, start, end - 24);
    match first_in(p, start, end - 24) {
        Some(j) => {
            law_enc64_le64(d, j);
            assert(holds(d, j, enc32(1)));
        },
        None => {},
    }
}

/// What the special registers become when they are restored: CR8 and the interrupt
/// bitmap are not taken over.
pub open spec fn restored(s: KvmSregs) -> KvmSregs {
    KvmSregs { cr8: 0, interrupt_bitmap: [0, 0, 0, 0], ..s }
}

/// What stands in a snapshot of one vCPU after the other: the general purpose registers
/// from `regs` on, the special ones from `segs` on, and the local APICs from `lapic` on.
#[verifier::opaque]
pub open spec fn vcpus_at(
    d: Seq<u8>,
    regs: int,
    segs: int,
    lapic: int,
    r: Seq<KvmRegs>,
    s: Seq<KvmSregs>,
    l: Seq<Seq<i8>>,
    gdt: Seq<Seq<u8>>,
    idt: Seq<Seq<u8>>,
) -> bool {
    &&& r.len() >= 1
    &&& s.len() == r.len()
    &&& l.len() == r.len()
    &&& gdt.len() == r.len()
    &&& idt.len() == r.len()
    &&& forall|k: int|
        #![trigger r[k]]
        0 <= k < r.len() ==> {
            &&& holds(d, regs + 144 * k, joined(enc_regs(r[k])))
            &&& gdt[k].len() == 6
            &&& idt[k].len() == 6
            &&& holds(d, segs + 312 * k, enc_sregs(s[k], gdt[k], idt[k]))
            &&& l[k].len() == 1024
            &&& holds(d, lapic + 1024 * k, l[k].map_values(|b: i8| enc_signed(b)))
        }
}

/// The state of every vCPU is read from where it stands, in its order: the blocks of
/// one kind follow one another. The redirection table is that of the IOAPIC.
#[verifier::rlimit(30)]
pub proof fn law_vcpus_read(
    d: Seq<u8>,
    regs: int,
    segs: int,
    lapic: int,
    ioapic: int,
    r: Seq<KvmRegs>,
    s: Seq<KvmSregs>,
    l: Seq<Seq<i8>>,
    gdt: Seq<Seq<u8>>,
    idt: Seq<Seq<u8>>,
    table: Seq<u64>,
)
    requires
        efer_offset(d) == Some(segs + 264),
        first_regs_offset(d, segs) == Ok::<int, VmStateError>(regs),
        vcpu_count(d, regs, segs) == r.len(),
        lapic_offset(d) == Some(lapic),
        ioapic_offset(d) == Some(ioapic),
        vcpus_at(d, regs, segs, lapic, r, s, l, gdt, idt),
        table.len() == 24,
        holds(d, ioapic + 24, joined(table.map_values(|v: u64| enc64(v)))),
    ensures
        vmstate_model(d) matches Ok(m) && {
            &&& m.regs == r[0]
            &&& m.sregs == restored(s[0])
            &&& m.lapic == l[0]
            &&& m.ioapic_redirtbl == table
            &&& m.secondary_vcpus.len() == r.len() - 1
            &&& forall|k: int|
                #![trigger m.secondary_vcpus[k - 1]]
                1 <= k < r.len() ==> {
                    &&& m.secondary_vcpus[k - 1].regs == r[k]
                    &&& m.secondary_vcpus[k - 1].sregs == restored(s[k])
                    &&& m.secondary_vcpus[k - 1].lapic == l[k]
                }
        },
{
    let xsave = xsave_offset(d, segs + 264);
    lemma_all_sregs_within(d, regs, segs, lapic, r, s, l, gdt, idt);
    lemma_first_in(ioapic_at(d), 0, d.len() - 216);
    let m = found_vmstate(d, segs, regs, ioapic, lapic);
    assert(vmstate_model(d) == Ok::<VmStateModel, VmStateError>(m));
    lemma_first_vcpu(d, regs, segs, lapic, ioapic, r, s, l, gdt, idt, table);
    assert forall|k: int| #![trigger m.secondary_vcpus[k - 1]] 1 <= k < r.len() implies {
        &&& m.secondary_vcpus[k - 1].regs == r[k]
        &&& m.secondary_vcpus[k - 1].sregs == restored(s[k])
        &&& m.secondary_vcpus[k - 1].lapic == l[k]
    } by {
        lemma_further_vcpu(d, regs, segs, lapic, xsave, r, s, l, gdt, idt, k);
        assert(m.secondary_vcpus[k - 1] == secondary_model(d, regs, segs, lapic, xsave, k));
    }
}

proof fn lemma_all_sregs_within(
    d: Seq<u8>,
    regs: int,
    segs: int,
    lapic: int,
    r: Seq<KvmRegs>,
    s: Seq<KvmSregs>,
    l: Seq<Seq<i8>>,
    gdt: Seq<Seq<u8>>,
    idt: Seq<Seq<u8>>,
)
    requires
        vcpus_at(d, regs, segs, lapic, r, s, l, gdt, idt),
    ensures
        r.len() >= 1,
        sregs_fit(d, segs, r.len()),
{
    reveal(vcpus_at);
    let n = r.len() as int;
    assert(holds(d, regs + 144 * (n - 1), joined(enc_regs(r[n - 1]))));
    lemma_sregs_within(d, segs + 312 * (n - 1), s[n - 1], gdt[n - 1], idt[n - 1]);
}

proof fn lemma_first_vcpu(
    d: Seq<u8>,
    regs: int,
    segs: int,
    lapic: int,
    ioapic: int,
    r: Seq<KvmRegs>,
    s: Seq<KvmSregs>,
    l: Seq<Seq<i8>>,
    gdt: Seq<Seq<u8>>,
    idt: Seq<Seq<u8>>,
    table: Seq<u64>,
)
    requires
        vcpus_at(d, regs, segs, lapic, r, s, l, gdt, idt),
        0 <= ioapic,
        ioapic + 216 <= d.len(),
        table.len() == 24,
        holds(d, ioapic + 24, joined(table.map_values(|v: u64| enc64(v)))),
    ensures
        ({
            let m = found_vmstate(d, segs, regs, ioapic, lapic);
            &&& m.regs == r[0]
            &&& m.sregs == restored(s[0])
            &&& m.lapic == l[0]
            &&& m.ioapic_redirtbl == table
        }),
{
    assert(r.len() >= 1) by {
        reveal(vcpus_at);
    }
    lemma_vcpu(d, regs, segs, lapic, r, s, l, gdt, idt, 0);
    law_redirtbl_read_back(d, ioapic, table);
}

#[verifier::rlimit(30)]
proof fn lemma_further_vcpu(
    d: Seq<u8>,
    regs: int,
    segs: int,
    lapic: int,
    xsave: Option<int>,
    r: Seq<KvmRegs>,
    s: Seq<KvmSregs>,
    l: Seq<Seq<i8>>,
    gdt: Seq<Seq<u8>>,
    idt: Seq<Seq<u8>>,
    k: int,
)
    requires
        vcpus_at(d, regs, segs, lapic, r, s, l, gdt, idt),
        0 <= k < r.len(),
    ensures
        ({
            let v = secondary_model(d, regs, segs, lapic, xsave, k);
            &&& v.regs == r[k]
            &&& v.sregs == restored(s[k])
            &&& v.lapic == l[k]
        }),
{
    lemma_vcpu(d, regs, segs, lapic, r, s, l, gdt, idt, k);
    lemma_secondary_places(d, regs, segs, lapic, xsave, k);
}

proof fn lemma_secondary_places(
    d: Seq<u8>,
    regs: int,
    segs: int,
    lapic: int,
    xsave: Option<int>,
    k: int,
)
    ensures
        ({
            let v = secondary_model(d, regs, segs, lapic, xsave, k);
            &&& v.regs == regs_model(d, regs + 144 * k)
            &&& v.sregs == sregs_at(d, segs + 312 * k)
            &&& lapic + 1024 * k + 1024 <= d.len() ==> v.lapic == lapic_model(d, lapic + 1024 * k)
            &&& xsave matches Some(first) ==> {
                &&& v.xsave == xsave_or_zero(d, nth_xsave_offset(d, first, k as nat))
                &&& v.xcrs == xcrs_between(
                    d,
                    segs + 312 * k,
                    nth_xsave_offset(d, first, k as nat),
                )
            }
        }),
{
    reveal(secondary_model);
    assert(k * 144 == 144 * k && k * 312 == 312 * k && k * 1024 == 1024 * k);
}

proof fn lemma_sregs_within(d: Seq<u8>, o: int, s: KvmSregs, g: Seq<u8>, i: Seq<u8>)
    requires
        g.len() == 6,
        i.len() == 6,
        holds(d, o, enc_sregs(s, g, i)),
    ensures
        o + 280 <= d.len(),
{
    lemma_lens();
    lemma_holds_within(d, o, enc_sregs(s, g, i));
    let p = enc_segments(s);
    assert forall|k: int| 0 <= k < p.len() implies (#[trigger] p[k]).len() == 24 by {}
    lemma_joined_even(p, 24);
    let c = enc_controls(s);
    assert forall|k: int| 0 <= k < c.len() implies (#[trigger] c[k]).len() == 8 by {}
    lemma_joined_even(c, 8);
}

proof fn lemma_vcpu(
    d: Seq<u8>,
    regs: int,
    segs: int,
    lapic: int,
    r: Seq<KvmRegs>,
    s: Seq<KvmSregs>,
    l: Seq<Seq<i8>>,
    gdt: Seq<Seq<u8>>,
    idt: Seq<Seq<u8>>,
    k: int,
)
    requires
        vcpus_at(d, regs, segs, lapic, r, s, l, gdt, idt),
        0 <= k < r.len(),
    ensures
        regs_model(d, regs + 144 * k) == r[k],
        sregs_at(d, segs + 312 * k) == restored(s[k]),
        lapic_model(d, lapic + 1024 * k) == l[k],
        lapic + 1024 * k + 1024 <= d.len(),
{
    reveal(vcpus_at);
    law_regs_read_back(d, regs + 144 * k, r[k]);
    law_sregs_read_back(d, segs + 312 * k, s[k], gdt[k], idt[k]);
    law_lapic_read_back(d, lapic + 1024 * k, l[k]);
    lemma_holds_within(d, lapic + 1024 * k, l[k].map_values(|b: i8| enc_signed(b)));
}

/// The extended state of every vCPU is read from where it stands. The XCRs of a vCPU are
/// looked for between its special registers and its XSAVE area.
#[verifier::rlimit(30)]
pub proof fn law_extended_state_read(
    d: Seq<u8>,
    regs: int,
    segs: int,
    first: int,
    k: int,
    at: int,
    words: Seq<u32>,
)
    requires
        efer_offset(d) == Some(segs + 264),
        first_regs_offset(d, segs) == Ok::<int, VmStateError>(regs),
        xsave_offset(d, segs + 264) == Some(first),
        0 <= k < vcpu_count(d, regs, segs),
        nth_xsave_offset(d, first, k as nat) == Some(at),
        words.len() == 1024,
        at + 4096 <= d.len(),
        holds(d, at, joined(words.map_values(|v: u32| enc32(v)))),
    ensures
        vmstate_model(d) matches Ok(m) ==> {
            let (xsave, xcrs) = if k == 0 {
                (m.xsave, m.xcrs)
            } else {
                (m.secondary_vcpus[k - 1].xsave, m.secondary_vcpus[k - 1].xcrs)
            };
            &&& xsave == words
            &&& xcrs == found_xcrs(d, segs + 312 * k + 312, at)
        },
{
    lemma_holds_within(d, at, joined(words.map_values(|v: u32| enc32(v))));
    law_xsave_read_back(d, at, words);
    if let Ok(m) = vmstate_model(d) {
        if k > 0 {
            let lapic = lapic_offset(d).unwrap();
            assert(m.secondary_vcpus[k - 1] == secondary_model(
                d,
                regs,
                segs,
                lapic,
                Some(first),
                k,
            ));
            lemma_secondary_places(d, regs, segs, lapic, Some(first), k);
        }
    }
}

/// A snapshot without any value of EFER that a booted guest may have cannot be read.
pub proof fn law_no_efer(d: Seq<u8>)
    requires
        absent(d, 0xD01),
        absent(d, 0x501),
        absent(d, 0xD00),
        absent(d, 0x500),
    ensures
        vmstate_model(d) == Err::<VmStateModel, VmStateError>(VmStateError::EferNotFound),
{
    lemma_no_efer(d, 0xD01);
    lemma_no_efer(d, 0x501);
    lemma_no_efer(d, 0xD00);
    lemma_no_efer(d, 0x500);
}

/// Where nothing before the segment registers can be RFLAGS, the snapshot cannot be read.
pub proof fn law_no_rflags(d: Seq<u8>, segs: int)
    requires
        efer_offset(d) == Some(segs + 264),
        forall|pos: int| segs - 64 <= pos < segs - 8 ==> #[trigger] no_rflags_at(d, pos),
    ensures
        vmstate_model(d) == Err::<VmStateModel, VmStateError>(VmStateError::RflagsNotFound),
{
    let lo = if segs >= 64 {
        segs - 64
    } else {
        0
    };
    let p = rflags_at(d);
    lemma_last_in(p, lo, segs - 8);
    if let Some(pos) = last_rflags(d, segs) {
        assert(p(pos));
        assert(no_rflags_at(d, pos));
        law_enc64_le64(d, pos);
        assert(holds(d, pos, enc64(le64(d, pos))));
    }
}

/// Without the address of an IOAPIC, or without a local APIC, the snapshot cannot be
/// read.
pub proof fn law_no_apic(d: Seq<u8>, segs: int, regs: int)
    requires
        efer_offset(d) == Some(segs + 264),
        first_regs_offset(d, segs) == Ok::<int, VmStateError>(regs),
    ensures
        absent(d, 0xFEC00000) ==> vmstate_model(d) == Err::<VmStateModel, VmStateError>(
            VmStateError::IoapicNotFound,
        ),
        ioapic_offset(d) is Some && (forall|j: int| #[trigger] no_version_at(d, j))
            ==> vmstate_model(d) == Err::<VmStateModel, VmStateError>(
            VmStateError::LapicNotFound,
        ),
{
    let p = ioapic_at(d);
    lemma_first_in(p, 0, d.len() - 216);
    if let Some(j) = first_in(p, 0, d.len() - 216) {
        assert(p(j));
        law_enc64_le64(d, j);
        assert(holds(d, j, enc64(0xFEC00000)));
    }
    let q = lapic_at(d);
    lemma_first_in(q, 0, d.len() - 1024);
    if let Some(j) = first_in(q, 0, d.len() - 1024) {
        assert(q(j));
        if forall|j: int| #[trigger] no_version_at(d, j) {
            assert(no_version_at(d, j));
            law_enc64_le64(d, j + 0x30);
            assert(holds(d, j + 0x30, enc32(le32(d, j + 0x30))));
        }
    }
}

/// Without an XSAVE area behind EFER, the extended state of every vCPU is zero.
#[verifier::rlimit(30)]
pub proof fn law_no_xsave(d: Seq<u8>, segs: int, regs: int, k: int)
    requires
        efer_offset(d) == Some(segs + 264),
        first_regs_offset(d, segs) == Ok::<int, VmStateError>(regs),
        forall|j: int| segs + 264 <= j ==> !#[trigger] holds(d, j, enc16(0x037F)),
        0 <= k < 1024,
    ensures
        vmstate_model(d) matches Ok(m) ==> {
            &&& m.xsave.len() == 1024
            &&& m.xsave[k] == 0
            &&& forall|v: int|
                0 <= v < m.secondary_vcpus.len() ==> (#[trigger] m.secondary_vcpus[v]).xsave
                    == m.xsave
        },
{
    let p = xsave_at(d);
    let from = segs + 264;
    lemma_efer_offset(d);
    lemma_first_in(p, from, d.len() - 4096);
    if let Some(j) = first_in(p, from, d.len() - 4096) {
        assert(p(j));
        law_enc64_le64(d, j);
        assert(holds(d, j, enc16(0x037F)));
    }
    assert(xsave_offset(d, from) is None);
    if let Ok(m) = vmstate_model(d) {
        let lapic = lapic_offset(d).unwrap();
        assert forall|v: int| 0 <= v < m.secondary_vcpus.len() implies (
        #[trigger] m.secondary_vcpus[v]).xsave == m.xsave by {
            assert(m.secondary_vcpus[v] == secondary_model(d, regs, segs, lapic, None, v + 1));
            reveal(secondary_model);
        }
    }
}

/// A snapshot in which EFER, the register blocks and both APICs are found is read if and
/// only if the special registers of all its vCPUs, up to the APIC base of the last one,
/// lie within it.
pub proof fn law_readable(d: Seq<u8>, segs: int, regs: int)
    requires
        efer_offset(d) == Some(segs + 264),
        first_regs_offset(d, segs) == Ok::<int, VmStateError>(regs),
        ioapic_offset(d) is Some,
        lapic_offset(d) is Some,
    ensures
        ({
            let end = segs + 312 * (vcpu_count(d, regs, segs) - 1) + 280;
            if end <= d.len() {
                vmstate_model(d) is Ok
            } else {
                vmstate_model(d) == Err::<VmStateModel, VmStateError>(
                    VmStateError::SregsOutOfRange,
                )
            }
        }),
{
}

/// Where the register block of the last vCPU would start before the data, the snapshot
/// cannot be read.
pub proof fn law_regs_cut_off(d: Seq<u8>, segs: int, pos: int, rip: u64, rflags: u64)
    requires
        efer_offset(d) == Some(segs + 264),
        segs - 64 <= pos < segs - 8,
        8 <= pos < 136,
        holds(d, pos, enc64(rflags)),
        !no_rflags(rflags),
        holds(d, pos - 8, enc64(rip)),
        rip != 0,
        forall|j: int| pos < j < segs - 8 ==> #[trigger] no_rflags_at(d, j),
    ensures
        vmstate_model(d) == Err::<VmStateModel, VmStateError>(VmStateError::RegsOutOfRange),
{
    lemma_lens();
    lemma_holds_within(d, pos, enc64(rflags));
    law_le64(d, pos, rflags);
    law_le64(d, pos - 8, rip);
    let lo = if segs >= 64 {
        segs - 64
    } else {
        0
    };
    let p = rflags_at(d);
    assert(p(pos));
    lemma_last_in(p, lo, segs - 8);
    match last_rflags(d, segs) {
        Some(j) => {
            if j > pos {
                assert(p(j));
                assert(no_rflags_at(d, j));
                law_enc64_le64(d, j);
                assert(holds(d, j, enc64(le64(d, j))));
            }
        },
        None => {},
    }
}

} // verus!

//! What holds of every snapshot that can be read.

use vstd::prelude::*;

use crate::bytes::{le32, le64};
use crate::scan::{lemma_first_in, lemma_last_in};
use crate::vmm::kvm_types::KvmMsrEntry;
use crate::vmm::vmstate::{
    blocks_from, cpuid_at, cpuid_func_like, cpuid_model, efer_at, first_block, first_regs_offset, has_index,
    last_of_each, last_rflags, msr_at, msr_candidates, msr_wanted, msrs_model, nth_xsave_offset,
    packed_entries, raw_queue_at, rflags_at, rflags_like, tagged_queue_at, vcpu_count,
    virtio_queue_model, vmstate_model, xsave_at, EFER_TO_SEGS, REGS_SIZE,
};

verus! {

/// A snapshot that was read is of a guest in 64-bit mode: EFER has one of the
/// values of a booted kernel, CR0 has protection and paging on and fits 32 bits,
/// and the APIC is at its architectural base.
pub proof fn law_long_mode(d: Seq<u8>)
    ensures
        vmstate_model(d) matches Ok(m) ==> {
            &&& m.sregs.efer == 0xD01 || m.sregs.efer == 0x501 || m.sregs.efer == 0xD00
                || m.sregs.efer == 0x500
            &&& m.sregs.cr0 & 0x80000001 == 0x80000001
            &&& m.sregs.cr0 >> 32 == 0
            &&& m.sregs.apic_base & 0xFFFFF000 == 0xFEE00000
        },
{
    lemma_first_in(efer_at(d, 0xD01), EFER_TO_SEGS as int, d.len() - 16);
    lemma_first_in(efer_at(d, 0x501), EFER_TO_SEGS as int, d.len() - 16);
    lemma_first_in(efer_at(d, 0xD00), EFER_TO_SEGS as int, d.len() - 16);
    lemma_first_in(efer_at(d, 0x500), EFER_TO_SEGS as int, d.len() - 16);
}

proof fn lemma_blocks_up_to(d: Seq<u8>, off: int, segs: int)
    requires
        off >= 0,
        off + REGS_SIZE <= segs,
        rflags_like(le64(d, off + 136)),
    ensures
        first_block(d, off) <= off,
        (off - first_block(d, off)) % (REGS_SIZE as int) == 0,
        blocks_from(d, first_block(d, off) + REGS_SIZE, segs) == (off - first_block(d, off)) / (
        REGS_SIZE as int) + blocks_from(d, off + REGS_SIZE, segs),
    decreases off,
{
    if off >= REGS_SIZE && rflags_like(le64(d, off - 8)) {
        lemma_blocks_up_to(d, off - REGS_SIZE, segs);
    }
}

/// There are as many vCPUs as register blocks from the first one found to the one
/// that the last RFLAGS before the segments ends.
pub proof fn law_vcpu_count(d: Seq<u8>, segs: int)
    ensures
        match (first_regs_offset(d, segs), last_rflags(d, segs)) {
            (Ok(regs), Some(rflags)) => {
                &&& 0 <= regs <= rflags - 136
                &&& (rflags - 136 - regs) % (REGS_SIZE as int) == 0
                &&& vcpu_count(d, regs, segs) == (rflags - 136 - regs) / (REGS_SIZE as int) + 1
            },
            (Ok(_), None) => false,
            (Err(_), _) => true,
        },
{
    let lo = if segs >= 64 {
        segs - 64
    } else {
        0
    };
    lemma_last_in(rflags_at(d), lo, segs - 8);
    if let Some(rflags) = last_rflags(d, segs) {
        if rflags >= 136 {
            lemma_blocks_up_to(d, rflags - 136, segs);
            lemma_first_block_start(d, rflags - 136);
        }
    }
}

proof fn lemma_first_block_start(d: Seq<u8>, off: int)
    requires
        off >= 0,
    ensures
        first_block(d, off) >= 0,
    decreases off,
{
    if off >= REGS_SIZE && rflags_like(le64(d, off - 8)) {
        lemma_first_block_start(d, off - REGS_SIZE);
    }
}

proof fn lemma_first_block_flags(d: Seq<u8>, off: int)
    requires
        rflags_like(le64(d, off + 136)),
    ensures
        rflags_like(le64(d, first_block(d, off) + 136)),
    decreases off,
{
    if off >= REGS_SIZE && rflags_like(le64(d, off - 8)) {
        lemma_first_block_flags(d, off - REGS_SIZE);
    }
}

proof fn lemma_block_flags(d: Seq<u8>, off: int, segs: int, k: int)
    requires
        0 <= k < blocks_from(d, off, segs),
    ensures
        rflags_like(le64(d, off + k * REGS_SIZE + 136)),
    decreases k,
{
    if k > 0 {
        lemma_block_flags(d, off + REGS_SIZE, segs, k - 1);
    }
}

/// The register blocks that are counted end less than 57 bytes before the segments,
/// and each of them ends with a value that can be RFLAGS.
pub proof fn law_vcpu_blocks(d: Seq<u8>, segs: int, k: int)
    ensures
        first_regs_offset(d, segs) matches Ok(regs) ==> {
            let n = vcpu_count(d, regs, segs);
            &&& n >= 1
            &&& segs - 56 <= regs + n * REGS_SIZE < segs
            &&& 0 <= k < n ==> rflags_like(le64(d, regs + k * REGS_SIZE + 136))
        },
{
    law_vcpu_count(d, segs);
    let lo = if segs >= 64 {
        segs - 64
    } else {
        0
    };
    lemma_last_in(rflags_at(d), lo, segs - 8);
    if let Ok(regs) = first_regs_offset(d, segs) {
        let last = last_rflags(d, segs).unwrap() - 136;
        lemma_first_block_flags(d, last);
        if 0 < k < vcpu_count(d, regs, segs) {
            lemma_block_flags(d, regs + REGS_SIZE, segs, k - 1);
        }
    }
}

/// The XSAVE areas of different vCPUs do not overlap.
pub proof fn law_xsave_areas_apart(d: Seq<u8>, first: int, m: nat, n: nat)
    requires
        m < n,
    ensures
        nth_xsave_offset(d, first, n) matches Some(later) ==> {
            &&& nth_xsave_offset(d, first, m) matches Some(earlier)
            &&& earlier + 4096 <= later
            &&& later + 4096 <= d.len()
        },
    decreases n,
{
    let k = (n - 1) as nat;
    if let Some(prev) = nth_xsave_offset(d, first, k) {
        lemma_first_in(xsave_at(d), prev + 4096, d.len() - 4095);
        if m < k {
            law_xsave_areas_apart(d, first, m, k);
        }
    }
}

/// The queue of the block device lies page aligned between 1 MiB and 1 GiB, its
/// three parts one page apart.
pub proof fn law_queue_layout(d: Seq<u8>)
    ensures
        virtio_queue_model(d) matches Some(q) ==> {
            &&& q.desc_table % 0x1000 == 0
            &&& q.desc_table >= 0x100000
            &&& q.avail_ring == q.desc_table + 0x1000
            &&& q.used_ring == q.avail_ring + 0x1000
            &&& q.used_ring <= 0x40000000
            &&& q.queue_size == 256
        },
{
    lemma_first_in(tagged_queue_at(d), 0, d.len() - 19);
    lemma_first_in(raw_queue_at(d), 0, d.len() - 24);
}

/// A CPUID list is empty, or has at least five entries of which the first is leaf
/// 0 with the name of a known vendor.
pub proof fn law_cpuid_starts_at_leaf_zero(d: Seq<u8>)
    ensures
        cpuid_model(d).len() == 0 || {
            &&& cpuid_model(d).len() >= 5
            &&& cpuid_model(d)[0].function == 0
            &&& cpuid_model(d)[0].index == 0
            &&& cpuid_model(d)[0].ebx == 0x68747541 || cpuid_model(d)[0].ebx == 0x756e6547
        },
{
    lemma_first_in(cpuid_at(d), 0, d.len() - 4);
}

/// The function numbers of packed CPUID entries do not fall.
pub proof fn law_packed_entries_sorted(d: Seq<u8>, off: int, stride: int, prev: u32, i: int)
    requires
        0 <= i < packed_entries(d, off, stride, prev).len(),
    ensures
        ({
            let s = packed_entries(d, off, stride, prev);
            &&& cpuid_func_like(s[i].function)
            &&& s[i].function >= prev
            &&& i > 0 ==> s[i].function >= s[i - 1].function
        }),
    decreases i,
{
    if i > 0 {
        let rest = packed_entries(d, off + stride, stride, le32(d, off));
        law_packed_entries_sorted(d, off + stride, stride, le32(d, off), i - 1);
        assert(packed_entries(d, off, stride, prev)[i] == rest[i - 1]);
        if i > 1 {
            assert(packed_entries(d, off, stride, prev)[i - 1] == rest[i - 2]);
        }
    }
}

proof fn lemma_candidates_wanted(d: Seq<u8>, i: int, hi: int)
    ensures
        forall|k: int|
            0 <= k < msr_candidates(d, i, hi).len() ==> {
                let e = #[trigger] msr_candidates(d, i, hi)[k];
                msr_wanted(e.index, e.data)
            },
    decreases hi - i,
{
    if i < hi {
        let rest = msr_candidates(d, i + 1, hi);
        lemma_candidates_wanted(d, i + 1, hi);
        if msr_at(d, i) {
            assert forall|k: int| 0 <= k < msr_candidates(d, i, hi).len() implies {
                let e = #[trigger] msr_candidates(d, i, hi)[k];
                msr_wanted(e.index, e.data)
            } by {
                if k > 0 {
                    assert(msr_candidates(d, i, hi)[k] == rest[k - 1]);
                }
            }
        }
    }
}

/// What is kept was there, once for each register.
pub proof fn lemma_last_of_each(s: Seq<KvmMsrEntry>)
    ensures
        forall|x: KvmMsrEntry| #[trigger] last_of_each(s).contains(x) ==> s.contains(x),
        forall|i: int, j: int|
            0 <= i < j < last_of_each(s).len() ==> (#[trigger] last_of_each(s)[i]).index != (
            #[trigger] last_of_each(s)[j]).index,
    decreases s.len(),
{
    if s.len() > 0 {
        let rest = s.drop_first();
        let kept = last_of_each(rest);
        lemma_last_of_each(rest);
        assert forall|x: KvmMsrEntry| #[trigger] last_of_each(s).contains(x) implies s.contains(
            x,
        ) by {
            if kept.contains(x) {
                assert(rest.contains(x));
                let k = choose|k: int| 0 <= k < rest.len() && rest[k] == x;
                assert(s[k + 1] == x);
            } else {
                let k = choose|k: int| 0 <= k < last_of_each(s).len() && last_of_each(s)[k] == x;
                assert(k == 0) by {
                    if k > 0 {
                        if has_index(rest, s[0].index) {
                            assert(kept[k] == x);
                        } else {
                            assert(kept[k - 1] == x);
                        }
                    }
                }
                if has_index(rest, s[0].index) {
                    assert(kept[0] == x);
                }
                assert(s[0] == x);
            }
        }
        if !has_index(rest, s[0].index) {
            assert forall|j: int| 0 <= j < kept.len() implies (#[trigger] kept[j]).index
                != s[0].index by {
                assert(kept.contains(kept[j]));
                assert(rest.contains(kept[j]));
                let k = choose|k: int| 0 <= k < rest.len() && rest[k] == kept[j];
                assert(rest[k].index == kept[j].index);
            }
            assert forall|i: int, j: int| 0 <= i < j < last_of_each(s).len() implies (
            #[trigger] last_of_each(s)[i]).index != (#[trigger] last_of_each(s)[j]).index by {
                assert(last_of_each(s)[j] == kept[j - 1]);
                if i > 0 {
                    assert(last_of_each(s)[i] == kept[i - 1]);
                }
            }
        }
    }
}

/// The last entry for a register is kept.
pub proof fn lemma_last_kept(s: Seq<KvmMsrEntry>, k: int)
    requires
        0 <= k < s.len(),
        !has_index(s.skip(k + 1), s[k].index),
    ensures
        last_of_each(s).contains(s[k]),
    decreases s.len(),
{
    let rest = s.drop_first();
    if k == 0 {
        assert(s.skip(1) =~= rest);
        assert(last_of_each(s)[0] == s[0]);
    } else {
        assert(rest.skip(k) =~= s.skip(k + 1));
        lemma_last_kept(rest, k - 1);
        let kept = last_of_each(rest);
        let j = choose|j: int| 0 <= j < kept.len() && kept[j] == s[k];
        if has_index(rest, s[0].index) {
            assert(last_of_each(s)[j] == s[k]);
        } else {
            assert(last_of_each(s)[j + 1] == s[k]);
        }
    }
}

/// No register occurs twice among the MSRs to restore, and each is one that a fork
/// restores, with a value that it can have.
pub proof fn law_msrs_distinct(d: Seq<u8>)
    ensures
        forall|i: int, j: int|
            0 <= i < j < msrs_model(d).len() ==> (#[trigger] msrs_model(d)[i]).index != (
            #[trigger] msrs_model(d)[j]).index,
        forall|i: int|
            0 <= i < msrs_model(d).len() ==> msr_wanted(
                (#[trigger] msrs_model(d)[i]).index,
                msrs_model(d)[i].data,
            ),
{
    let s = msr_candidates(d, 0, d.len() - 16);
    lemma_last_of_each(s);
    lemma_candidates_wanted(d, 0, d.len() - 16);
    assert forall|i: int| 0 <= i < msrs_model(d).len() implies msr_wanted(
        (#[trigger] msrs_model(d)[i]).index,
        msrs_model(d)[i].data,
    ) by {
        assert(last_of_each(s).contains(msrs_model(d)[i]));
        assert(s.contains(msrs_model(d)[i]));
        let k = choose|k: int| 0 <= k < s.len() && s[k] == msrs_model(d)[i];
        assert(msr_wanted(s[k].index, s[k].data));
    }
}

/// Of each register that was found, the last value is kept.
pub proof fn law_last_msr_kept(d: Seq<u8>, k: int)
    requires
        0 <= k < msr_candidates(d, 0, d.len() - 16).len(),
        !has_index(
            msr_candidates(d, 0, d.len() - 16).skip(k + 1),
            msr_candidates(d, 0, d.len() - 16)[k].index,
        ),
    ensures
        msrs_model(d).contains(msr_candidates(d, 0, d.len() - 16)[k]),
{
    lemma_last_kept(msr_candidates(d, 0, d.len() - 16), k);
}

} // verus!

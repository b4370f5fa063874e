//! The CPUID entries, model specific registers and queue addresses that are found in a
//! snapshot, from the bytes that they stand there as.

use vstd::prelude::*;

use crate::bytes::{le32, le64};
use crate::scan::{first_in, lemma_first_in};
use crate::vmm::kvm_types::{KvmCpuidEntry2, KvmMsrEntry};
use crate::vmm::layout_laws::{
    enc32, enc64, enc_cpuid, holds, joined, joined_len, law_cpuid_entry_read_back,
    law_enc64_le64, law_le32, law_le64, lemma_holds_joined, lemma_holds_within, lemma_lens,
};
use crate::vmm::virtio_blk::VirtioQueueAddrs;
use crate::vmm::vmstate::{
    cpuid_at, cpuid_list_at, cpuid_model, has_index, headed_entries, last_of_each,
    msr_candidates, msrs_model, packed_entries, raw_queue_at, tagged_queue_at, vendor_at,
    virtio_queue_model,
};
use crate::vmm::vmstate_laws::{lemma_last_kept, lemma_last_of_each};

verus! {

/// "Auth" as the bytes of a register, least significant first.
pub open spec fn auth() -> u32 {
    0x68747541
}

/// "Genu" as the bytes of a register, least significant first.
pub open spec fn genu() -> u32 {
    0x756e6547
}

/// Whether the name of a CPU vendor starts at `j`.
pub open spec fn vendor_named(d: Seq<u8>, j: int) -> bool {
    holds(d, j, enc32(auth())) || holds(d, j, enc32(genu()))
}

proof fn lemma_vendor(d: Seq<u8>, j: int)
    requires
        0 <= j,
        j + 4 <= d.len(),
    ensures
        vendor_at(d, j) == vendor_named(d, j),
{
    reveal(holds);
    reveal(enc32);
    let a = enc32(auth());
    let g = enc32(genu());
    assert(a =~= seq![0x41u8, 0x75, 0x74, 0x68]);
    assert(g =~= seq![0x47u8, 0x65, 0x6e, 0x75]);
    if vendor_named(d, j) {
        if holds(d, j, a) {
            assert(d[j + 0] == a[0] && d[j + 1] == a[1] && d[j + 2] == a[2] && d[j + 3] == a[3]);
        } else {
            assert(d[j + 0] == g[0] && d[j + 1] == g[1] && d[j + 2] == g[2] && d[j + 3] == g[3]);
        }
    }
}

/// Whether a function number of CPUID is a basic, a hypervisor or an extended one.
pub open spec fn known_function(f: u32) -> bool {
    f <= 0x1F || 0x4000_0000 <= f <= 0x4000_0020 || 0x8000_0000 <= f <= 0x8000_0020
}

/// Whether CPUID entries stand from `at` on, `stride` bytes apart.
pub open spec fn entries_at(
    d: Seq<u8>,
    at: int,
    stride: int,
    list: Seq<KvmCpuidEntry2>,
    padding: Seq<Seq<u8>>,
) -> bool {
    &&& padding.len() == list.len()
    &&& forall|k: int|
        #![trigger list[k]]
        0 <= k < list.len() ==> padding[k].len() == 12 && holds(
            d,
            at + stride * k,
            joined(enc_cpuid(list[k], padding[k])),
        )
}

/// Whether a list of CPUID entries is that of one vCPU: leaf 0, which names the vendor,
/// and at least four more.
pub open spec fn starts_with_leaf_zero(list: Seq<KvmCpuidEntry2>) -> bool {
    &&& list.len() >= 5
    &&& list[0].function == 0
    &&& list[0].index == 0
    &&& list[0].ebx == auth() || list[0].ebx == genu()
}

proof fn lemma_entry(d: Seq<u8>, o: int, e: KvmCpuidEntry2, padding: Seq<u8>)
    requires
        padding.len() == 12,
        holds(d, o, joined(enc_cpuid(e, padding))),
    ensures
        0 <= o,
        o + 40 <= d.len(),
        holds(d, o, enc32(e.function)),
        holds(d, o + 4, enc32(e.index)),
        holds(d, o + 16, enc32(e.ebx)),
        le32(d, o) == e.function,
        le32(d, o + 4) == e.index,
{
    lemma_lens();
    let p = enc_cpuid(e, padding);
    lemma_cpuid_len(e, padding);
    lemma_holds_within(d, o, joined(p));
    lemma_holds_joined(d, o, p, 0);
    lemma_holds_joined(d, o, p, 1);
    lemma_holds_joined(d, o, p, 4);
    lemma_cpuid_places(e, padding);
    law_le32(d, o, e.function);
    law_le32(d, o + 4, e.index);
}

proof fn lemma_cpuid_places(e: KvmCpuidEntry2, padding: Seq<u8>)
    ensures
        ({
            let p = enc_cpuid(e, padding);
            &&& joined_len(p, 0) == 0
            &&& joined_len(p, 1) == 4
            &&& joined_len(p, 4) == 16
        }),
{
    lemma_lens();
    let p = enc_cpuid(e, padding);
    reveal_with_fuel(joined_len, 5);
    assert(p[0].len() == 4 && p[1].len() == 4 && p[2].len() == 4 && p[3].len() == 4);
}

proof fn lemma_cpuid_len(e: KvmCpuidEntry2, padding: Seq<u8>)
    requires
        padding.len() == 12,
    ensures
        joined(enc_cpuid(e, padding)).len() == 40,
{
    lemma_lens();
    let p = enc_cpuid(e, padding);
    reveal_with_fuel(joined, 9);
    assert(p.drop_first().drop_first().drop_first().drop_first().drop_first().drop_first().drop_first()
        =~= seq![padding]);
}

/// The function number before an entry of a list, none before the first.
spec fn function_before(list: Seq<KvmCpuidEntry2>, k: int) -> u32 {
    if k <= 0 {
        0
    } else {
        list[k - 1].function
    }
}

proof fn lemma_packed(
    d: Seq<u8>,
    at: int,
    list: Seq<KvmCpuidEntry2>,
    padding: Seq<Seq<u8>>,
    k: int,
)
    requires
        entries_at(d, at, 40, list, padding),
        forall|k: int| 0 <= k < list.len() ==> known_function((#[trigger] list[k]).function),
        forall|j: int, k: int|
            #![trigger list[j], list[k]]
            0 <= j < k < list.len() ==> list[j].function <= list[k].function,
        at + 40 * list.len() + 40 > d.len() || forall|f: u32|
            #[trigger] holds(d, at + 40 * list.len(), enc32(f)) ==> !known_function(f) || f
                < list.last().function,
        0 <= k <= list.len(),
        list.len() > 0,
    ensures
        packed_entries(d, at + 40 * k, 40, function_before(list, k)) == list.skip(k),
    decreases list.len() - k,
{
    let o = at + 40 * k;
    if k < list.len() {
        assert(holds(d, o, joined(enc_cpuid(list[k], padding[k]))));
        lemma_entry(d, o, list[k], padding[k]);
        law_cpuid_entry_read_back(d, o, list[k], padding[k]);
        lemma_packed(d, at, list, padding, k + 1);
        if k > 0 {
            assert(list[k - 1].function <= list[k].function);
        }
        assert(seq![list[k]] + list.skip(k + 1) =~= list.skip(k));
    } else {
        lemma_entry(d, at + 40 * (k - 1), list[k - 1], padding[k - 1]);
        if at + 40 * list.len() + 40 <= d.len() {
            law_enc64_le64(d, o);
            assert(holds(d, o, enc32(le32(d, o))));
        }
        assert(list.skip(k) =~= seq![]);
    }
}

/// The CPUID entries of the first vCPU are read where they stand packed: in their order,
/// up to the end of the data or the next vCPU's, whose first function is lower.
pub proof fn law_packed_cpuid_read(
    d: Seq<u8>,
    at: int,
    list: Seq<KvmCpuidEntry2>,
    padding: Seq<Seq<u8>>,
)
    requires
        entries_at(d, at, 40, list, padding),
        starts_with_leaf_zero(list),
        forall|k: int| 0 <= k < list.len() ==> known_function((#[trigger] list[k]).function),
        forall|j: int, k: int|
            #![trigger list[j], list[k]]
            0 <= j < k < list.len() ==> list[j].function <= list[k].function,
        at + 40 * list.len() + 40 > d.len() || forall|f: u32|
            #[trigger] holds(d, at + 40 * list.len(), enc32(f)) ==> !known_function(f) || f
                < list.last().function,
        forall|j: int| 0 <= j < at + 16 ==> !#[trigger] vendor_named(d, j),
    ensures
        cpuid_model(d) == list,
{
    lemma_packed(d, at, list, padding, 0);
    assert(list.skip(0) =~= list);
    lemma_entry(d, at, list[0], padding[0]);
    let i = at + 16;
    assert(vendor_named(d, i));
    lemma_vendor(d, i);
    lemma_entry(d, at + 40, list[1], padding[1]);
    assert(cpuid_list_at(d, i) == Some(list));
    lemma_first_list(d, i);
}

proof fn lemma_first_list(d: Seq<u8>, i: int)
    requires
        0 <= i < d.len() - 4,
        cpuid_list_at(d, i) is Some,
        forall|j: int| 0 <= j < i ==> !#[trigger] vendor_named(d, j),
    ensures
        cpuid_model(d) == cpuid_list_at(d, i).unwrap(),
{
    let p = cpuid_at(d);
    assert(p(i));
    lemma_first_in(p, 0, d.len() - 4);
    match first_in(p, 0, d.len() - 4) {
        Some(j) => {
            if j < i {
                assert(p(j));
                lemma_vendor(d, j);
                assert(vendor_named(d, j));
            }
        },
        None => {},
    }
}

/// Whether the `k`-th header of CPUID entries stands in the data: the size of an entry.
pub open spec fn header_at(d: Seq<u8>, at: int, k: int) -> bool {
    holds(d, at + 48 * k, enc64(0x28))
}

proof fn lemma_headed(
    d: Seq<u8>,
    at: int,
    list: Seq<KvmCpuidEntry2>,
    padding: Seq<Seq<u8>>,
    k: int,
)
    requires
        entries_at(d, at + 8, 48, list, padding),
        forall|k: int| 0 <= k < list.len() ==> #[trigger] header_at(d, at, k),
        at + 48 * list.len() + 48 > d.len() || !header_at(d, at, list.len() as int),
        0 <= at,
        0 <= k <= list.len(),
    ensures
        headed_entries(d, at + 48 * k, 48) == list.skip(k),
    decreases list.len() - k,
{
    let o = at + 48 * k;
    if k < list.len() {
        assert(holds(d, o + 8, joined(enc_cpuid(list[k], padding[k]))));
        lemma_entry(d, o + 8, list[k], padding[k]);
        law_cpuid_entry_read_back(d, o + 8, list[k], padding[k]);
        assert(header_at(d, at, k));
        law_le64(d, o, 0x28);
        lemma_headed(d, at, list, padding, k + 1);
        assert(seq![list[k]] + list.skip(k + 1) =~= list.skip(k));
    } else {
        if o + 48 <= d.len() {
            law_enc64_le64(d, o);
            assert(holds(d, o, enc64(le64(d, o))));
        }
        assert(list.skip(k) =~= seq![]);
    }
}

/// The CPUID entries of the first vCPU are read where each stands behind a header that
/// gives its size: in their order, up to the first that has no such header.
pub proof fn law_headed_cpuid_read(
    d: Seq<u8>,
    at: int,
    list: Seq<KvmCpuidEntry2>,
    padding: Seq<Seq<u8>>,
)
    requires
        0 <= at,
        entries_at(d, at + 8, 48, list, padding),
        starts_with_leaf_zero(list),
        forall|k: int| 0 <= k < list.len() ==> #[trigger] header_at(d, at, k),
        at + 48 * list.len() + 48 > d.len() || !header_at(d, at, list.len() as int),
        forall|j: int| 0 <= j < at + 24 ==> !#[trigger] vendor_named(d, j),
    ensures
        cpuid_model(d) == list,
{
    lemma_headed(d, at, list, padding, 0);
    assert(list.skip(0) =~= list);
    lemma_entry(d, at + 8, list[0], padding[0]);
    lemma_entry(d, at + 56, list[1], padding[1]);
    let i = at + 24;
    assert(vendor_named(d, i));
    lemma_vendor(d, i);
    assert(header_at(d, at, 0) && header_at(d, at, 1));
    law_le64(d, at, 0x28);
    // Read as packed, the list would end with its first entry.
    law_le64(d, at + 48, 0x28);
    assert(le32(d, at + 48) == 0x28) by {
        let o = at + 48;
        assert(le64(d, o) == le32(d, o) + 0x1_0000_0000 * le32(d, o + 4));
    }
    reveal_with_fuel(packed_entries, 2);
    assert(packed_entries(d, at + 48, 40, 0).len() == 0);
    assert(packed_entries(d, at + 8, 40, 0).len() <= 1);
    assert(cpuid_list_at(d, i) == Some(list));
    lemma_first_list(d, i);
}

/// Whether a model specific register is restored, and may have the value: those of
/// system calls, the kernel's GS base, and the paravirtual clock.
pub open spec fn restorable(index: u32, value: u64) -> bool {
    ||| index == 0xC000_0081 && value != 0
    ||| (index == 0xC000_0082 || index == 0xC000_0083) && (value == 0 || value
        > 0xFFFF_FFFF_8000_0000)
    ||| index == 0xC000_0084 || index == 0xC000_0102
    ||| (index == 0x4B56_4D00 || index == 0x4B56_4D01) && 0 < value < 0x1_0000_0000
}

/// Whether a register with its value stands at `i`, as in `struct kvm_msr_entry`.
pub open spec fn msr_holds(d: Seq<u8>, i: int, index: u32, value: u64) -> bool {
    &&& holds(d, i, enc32(index))
    &&& holds(d, i + 4, enc32(0))
    &&& holds(d, i + 8, enc64(value))
}

proof fn lemma_candidates_split(d: Seq<u8>, a: int, b: int, hi: int)
    requires
        a <= b <= hi,
    ensures
        msr_candidates(d, a, hi) == msr_candidates(d, a, b) + msr_candidates(d, b, hi),
    decreases b - a,
{
    if a < b {
        lemma_candidates_split(d, a + 1, b, hi);
    }
    assert(msr_candidates(d, a, hi) =~= msr_candidates(d, a, b) + msr_candidates(d, b, hi));
}

proof fn lemma_candidate_source(d: Seq<u8>, lo: int, hi: int, k: int) -> (i: int)
    requires
        0 <= lo,
        hi + 16 <= d.len(),
        0 <= k < msr_candidates(d, lo, hi).len(),
    ensures
        lo <= i < hi,
        ({
            let e = msr_candidates(d, lo, hi)[k];
            &&& e.reserved == 0
            &&& msr_holds(d, i, e.index, e.data)
            &&& restorable(e.index, e.data)
        }),
    decreases hi - lo,
{
    let all = msr_candidates(d, lo, hi);
    let rest = msr_candidates(d, lo + 1, hi);
    if all.len() == rest.len() + 1 && k == 0 && all != rest {
        law_enc64_le64(d, lo);
        law_enc64_le64(d, lo + 4);
        law_enc64_le64(d, lo + 8);
        lo
    } else if all.len() == rest.len() {
        lemma_candidate_source(d, lo + 1, hi, k)
    } else {
        assert(all[k] == rest[k - 1]);
        lemma_candidate_source(d, lo + 1, hi, k - 1)
    }
}

/// A register to restore that stands in the data is restored with its value, where it
/// does not stand in the data again behind.
pub proof fn law_msr_restored(d: Seq<u8>, i: int, index: u32, value: u64)
    requires
        i + 16 < d.len(),
        msr_holds(d, i, index, value),
        restorable(index, value),
        forall|j: int| j > i ==> !(#[trigger] holds(d, j, enc32(index)) && holds(
            d,
            j + 4,
            enc32(0),
        )),
    ensures
        msrs_model(d).contains((KvmMsrEntry { index, reserved: 0, data: value })),
{
    let hi = d.len() - 16;
    lemma_lens();
    lemma_holds_within(d, i, enc32(index));
    law_le32(d, i, index);
    law_le32(d, i + 4, 0);
    law_le64(d, i + 8, value);
    let e = KvmMsrEntry { index, reserved: 0, data: value };
    let all = msr_candidates(d, 0, hi);
    let before = msr_candidates(d, 0, i);
    let after = msr_candidates(d, i + 1, hi);
    lemma_candidates_split(d, 0, i, hi);
    assert(msr_candidates(d, i, hi) == seq![e] + after);
    let k = before.len() as int;
    assert(all[k] == e);
    assert(all.skip(k + 1) =~= after);
    assert(!has_index(after, index)) by {
        if has_index(after, index) {
            let l = choose|l: int| 0 <= l < after.len() && (#[trigger] after[l]).index == index;
            let j = lemma_candidate_source(d, i + 1, hi, l);
            assert(holds(d, j, enc32(index)));
        }
    }
    lemma_last_kept(all, k);
}

/// Every register that is restored stands in the data with its value, and is one to
/// restore.
pub proof fn law_msr_stands_in_data(d: Seq<u8>, k: int) -> (i: int)
    requires
        0 <= k < msrs_model(d).len(),
    ensures
        ({
            let e = msrs_model(d)[k];
            &&& e.reserved == 0
            &&& msr_holds(d, i, e.index, e.data)
            &&& restorable(e.index, e.data)
        }),
{
    let all = msr_candidates(d, 0, d.len() - 16);
    lemma_last_of_each(all);
    let e = msrs_model(d)[k];
    assert(last_of_each(all).contains(e));
    assert(all.contains(e));
    let l = choose|l: int| 0 <= l < all.len() && all[l] == e;
    if d.len() < 16 {
        0
    } else {
        lemma_candidate_source(d, 0, d.len() - 16, l)
    }
}

/// Whether an address can be that of a descriptor table of 256 entries whose rings
/// follow it: page aligned, from 1 MiB on, and the used ring not above 1 GiB.
pub open spec fn table_address(desc: int) -> bool {
    desc % 0x1000 == 0 && 0x10_0000 <= desc && desc + 0x2000 <= 0x4000_0000
}

/// The queue of the block device with its descriptor table at an address.
pub open spec fn queue_at(desc: int) -> VirtioQueueAddrs {
    VirtioQueueAddrs {
        desc_table: desc as u64,
        avail_ring: (desc + 0x1000) as u64,
        used_ring: (desc + 0x2000) as u64,
        queue_size: 256,
        mmio_base: 0xC000_1000,
        gsi: 5,
    }
}

/// Whether three marker bytes stand before what may be three 32-bit numbers.
pub open spec fn marked(d: Seq<u8>, i: int) -> bool {
    d[i] == 2 && d[i + 5] == 2 && d[i + 10] == 2
}

/// The queue is found where its three addresses, one page apart, stand as 32-bit numbers
/// behind marker bytes.
pub proof fn law_marked_queue_found(d: Seq<u8>, i: int, desc: u32)
    requires
        0 <= i,
        i + 19 < d.len(),
        marked(d, i),
        table_address(desc as int),
        holds(d, i + 1, enc32(desc)),
        holds(d, i + 6, enc32((desc + 0x1000) as u32)),
        holds(d, i + 11, enc32((desc + 0x2000) as u32)),
        forall|j: int| 0 <= j < i ==> !#[trigger] marked(d, j),
    ensures
        virtio_queue_model(d) == Some(queue_at(desc as int)),
{
    law_le32(d, i + 1, desc);
    law_le32(d, i + 6, (desc + 0x1000) as u32);
    law_le32(d, i + 11, (desc + 0x2000) as u32);
    let p = tagged_queue_at(d);
    assert(p(i));
    lemma_first_in(p, 0, d.len() - 19);
    match first_in(p, 0, d.len() - 19) {
        Some(j) => {
            if j < i {
                assert(p(j));
                assert(marked(d, j));
            }
        },
        None => {},
    }
}

/// Whether the address of a descriptor table stands at `i` as a 64-bit number.
pub open spec fn table_address_at(d: Seq<u8>, i: int) -> bool {
    exists|a: u64| table_address(a as int) && #[trigger] holds(d, i, enc64(a))
}

/// Without marker bytes, the queue is found where its three addresses, one page apart,
/// stand as 64-bit numbers.
pub proof fn law_plain_queue_found(d: Seq<u8>, i: int, desc: u64)
    requires
        0 <= i,
        i + 24 < d.len(),
        table_address(desc as int),
        holds(d, i, enc64(desc)),
        holds(d, i + 8, enc64((desc + 0x1000) as u64)),
        holds(d, i + 16, enc64((desc + 0x2000) as u64)),
        forall|j: int| 0 <= j < d.len() - 19 ==> !#[trigger] marked(d, j),
        forall|j: int| 0 <= j < i ==> !#[trigger] table_address_at(d, j),
    ensures
        virtio_queue_model(d) == Some(queue_at(desc as int)),
{
    law_le64(d, i, desc);
    law_le64(d, i + 8, (desc + 0x1000) as u64);
    law_le64(d, i + 16, (desc + 0x2000) as u64);
    let t = tagged_queue_at(d);
    lemma_first_in(t, 0, d.len() - 19);
    match first_in(t, 0, d.len() - 19) {
        Some(j) => {
            assert(t(j));
            assert(marked(d, j));
        },
        None => {},
    }
    let p = raw_queue_at(d);
    assert(p(i));
    lemma_first_in(p, 0, d.len() - 24);
    match first_in(p, 0, d.len() - 24) {
        Some(j) => {
            if j < i {
                assert(p(j));
                law_enc64_le64(d, j);
                assert(holds(d, j, enc64(le64(d, j))));
                assert(table_address_at(d, j));
            }
        },
        None => {},
    }
}

/// Without the name of a vendor there are no CPUID entries.
pub proof fn law_no_cpuid(d: Seq<u8>)
    requires
        forall|j: int| !#[trigger] vendor_named(d, j),
    ensures
        cpuid_model(d).len() == 0,
{
    let p = cpuid_at(d);
    lemma_first_in(p, 0, d.len() - 4);
    if let Some(j) = first_in(p, 0, d.len() - 4) {
        assert(p(j));
        lemma_vendor(d, j);
        assert(vendor_named(d, j));
    }
}

/// Without marker bytes, and without the address of a descriptor table, there is no
/// queue.
pub proof fn law_no_queue(d: Seq<u8>)
    requires
        forall|j: int| 0 <= j < d.len() - 19 ==> !#[trigger] marked(d, j),
        forall|j: int| !#[trigger] table_address_at(d, j),
    ensures
        virtio_queue_model(d) is None,
{
    let t = tagged_queue_at(d);
    lemma_first_in(t, 0, d.len() - 19);
    if let Some(j) = first_in(t, 0, d.len() - 19) {
        assert(t(j));
        assert(marked(d, j));
    }
    let p = raw_queue_at(d);
    lemma_first_in(p, 0, d.len() - 24);
    if let Some(j) = first_in(p, 0, d.len() - 24) {
        assert(p(j));
        law_enc64_le64(d, j);
        assert(holds(d, j, enc64(le64(d, j))));
        assert(table_address_at(d, j));
    }
}

} // verus!

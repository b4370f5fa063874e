//! The kernel's structures as bytes, and that they are read back as what they are.
//!
//! The layouts here are those of the kernel's own headers: the fields one after the
//! other, each with its least significant byte first.

use vstd::prelude::*;

use crate::bytes::{le16, le32, le64};
use crate::vmm::kvm_types::{
    KvmCpuidEntry2, KvmDtable, KvmRegs, KvmSegment, KvmSregs, KvmXcr,
};
use crate::vmm::vmstate::{
    cpuid_entry, lapic_model, redirtbl_model, regs_model, seg_model, sregs_at, xcr_entry,
    xcrs_model, xsave_model,
};

verus! {

/// The two bytes of a number.
#[verifier::opaque]
pub open spec fn enc16(v: u16) -> Seq<u8> {
    seq![(v % 256) as u8, (v / 256) as u8]
}

/// The four bytes of a number.
#[verifier::opaque]
pub open spec fn enc32(v: u32) -> Seq<u8> {
    seq![
        (v % 256) as u8,
        (v / 256 % 256) as u8,
        (v / 65536 % 256) as u8,
        (v / 16777216) as u8,
    ]
}

/// The eight bytes of a number.
#[verifier::opaque]
pub open spec fn enc64(v: u64) -> Seq<u8> {
    enc32((v % 4294967296) as u32) + enc32((v / 4294967296) as u32)
}

/// How many bytes the numbers take.
pub proof fn lemma_lens()
    ensures
        forall|v: u16| (#[trigger] enc16(v)).len() == 2,
        forall|v: u32| (#[trigger] enc32(v)).len() == 4,
        forall|v: u64| (#[trigger] enc64(v)).len() == 8,
        forall|s: KvmSegment| (#[trigger] enc_segment(s)).len() == 24,
{
    reveal(enc16);
    reveal(enc32);
    reveal(enc64);
    reveal(enc_segment);
}

/// Whether the bytes `b` stand at position `o` of `d`.
#[verifier::opaque]
pub open spec fn holds(d: Seq<u8>, o: int, b: Seq<u8>) -> bool {
    &&& 0 <= o
    &&& o + b.len() <= d.len()
    &&& forall|i: int| 0 <= i < b.len() ==> #[trigger] d[o + i] == b[i]
}

/// What holds two pieces holds each of them in its place.
pub proof fn lemma_holds_parts(d: Seq<u8>, o: int, a: Seq<u8>, b: Seq<u8>)
    requires
        holds(d, o, a + b),
    ensures
        holds(d, o, a),
        holds(d, o + a.len(), b),
{
    reveal(holds);
    assert forall|i: int| 0 <= i < a.len() implies #[trigger] d[o + i] == a[i] by {
        assert((a + b)[i] == a[i]);
        assert(d[o + i] == (a + b)[i]);
    }
    assert forall|i: int| 0 <= i < b.len() implies #[trigger] d[o + a.len() + i] == b[i] by {
        assert((a + b)[a.len() + i] == b[i]);
        assert(d[o + (a.len() + i)] == (a + b)[a.len() + i]);
    }
}

/// What stands in the data lies within it.
pub proof fn lemma_holds_within(d: Seq<u8>, o: int, b: Seq<u8>)
    requires
        holds(d, o, b),
    ensures
        0 <= o,
        o + b.len() <= d.len(),
{
    reveal(holds);
}

/// The bytes of a 16-bit number are read as that number.
pub proof fn law_le16(d: Seq<u8>, o: int, v: u16)
    requires
        holds(d, o, enc16(v)),
    ensures
        le16(d, o) == v,
{
    reveal(enc16);
    reveal(holds);
    assert(d[o + 0] == enc16(v)[0]);
    assert(d[o + 1] == enc16(v)[1]);
}

/// The bytes of a 32-bit number are read as that number.
pub proof fn law_le32(d: Seq<u8>, o: int, v: u32)
    requires
        holds(d, o, enc32(v)),
    ensures
        le32(d, o) == v,
{
    reveal(enc32);
    reveal(holds);
    assert(d[o + 0] == enc32(v)[0]);
    assert(d[o + 1] == enc32(v)[1]);
    assert(d[o + 2] == enc32(v)[2]);
    assert(d[o + 3] == enc32(v)[3]);
}

/// The bytes of a 64-bit number are read as that number.
pub proof fn law_le64(d: Seq<u8>, o: int, v: u64)
    requires
        holds(d, o, enc64(v)),
    ensures
        le64(d, o) == v,
{
    reveal(enc64);
    lemma_lens();
    let low = (v % 4294967296) as u32;
    let high = (v / 4294967296) as u32;
    lemma_holds_parts(d, o, enc32(low), enc32(high));
    law_le32(d, o, low);
    law_le32(d, o + 4, high);
    assert(le64(d, o) == low + 4294967296 * high);
}

/// Reading a number and writing its bytes gives the bytes that were read.
pub proof fn law_enc64_le64(d: Seq<u8>, o: int)
    requires
        0 <= o,
        o + 8 <= d.len(),
    ensures
        holds(d, o, enc64(le64(d, o))),
        holds(d, o, enc32(le32(d, o))),
        holds(d, o, enc16(le16(d, o))),
{
    reveal(enc64);
    reveal(enc16);
    lemma_lens();
    reveal(holds);
    let low = le32(d, o);
    let high = le32(d, o + 4);
    assert(le64(d, o) == low + 4294967296 * high);
    assert((le64(d, o) % 4294967296) as u32 == low);
    assert((le64(d, o) / 4294967296) as u32 == high);
    lemma_enc32_le32(d, o);
    lemma_enc32_le32(d, o + 4);
    let all = enc64(le64(d, o));
    assert forall|i: int| 0 <= i < all.len() implies #[trigger] d[o + i] == all[i] by {
        if i >= 4 {
            assert(d[o + 4 + (i - 4)] == enc32(high)[i - 4]);
        }
    }
}

proof fn lemma_four_bytes(b0: u8, b1: u8, b2: u8, b3: u8, v: u32)
    requires
        v == b0 + 256 * b1 + 65536 * b2 + 16777216 * b3,
    ensures
        v % 256 == b0,
        v / 256 % 256 == b1,
        v / 65536 % 256 == b2,
        v / 16777216 == b3,
{
    assert(v / 256 == b1 + 256 * b2 + 65536 * b3);
    assert(v / 65536 == b2 + 256 * b3);
}

proof fn lemma_enc32_le32(d: Seq<u8>, o: int)
    requires
        0 <= o,
        o + 4 <= d.len(),
    ensures
        holds(d, o, enc32(le32(d, o))),
{
    reveal(enc32);
    reveal(holds);
    lemma_four_bytes(d[o], d[o + 1], d[o + 2], d[o + 3], le32(d, o));
}

/// The general purpose registers as bytes, in the order of `struct kvm_regs`.
pub open spec fn enc_regs(r: KvmRegs) -> Seq<Seq<u8>> {
    seq![
        enc64(r.rax),
        enc64(r.rbx),
        enc64(r.rcx),
        enc64(r.rdx),
        enc64(r.rsi),
        enc64(r.rdi),
        enc64(r.rsp),
        enc64(r.rbp),
        enc64(r.r8),
        enc64(r.r9),
        enc64(r.r10),
        enc64(r.r11),
        enc64(r.r12),
        enc64(r.r13),
        enc64(r.r14),
        enc64(r.r15),
        enc64(r.rip),
        enc64(r.rflags),
    ]
}

/// Pieces of bytes joined into one.
pub open spec fn joined(pieces: Seq<Seq<u8>>) -> Seq<u8>
    decreases pieces.len(),
{
    if pieces.len() == 0 {
        seq![]
    } else {
        pieces[0] + joined(pieces.drop_first())
    }
}

/// The number of bytes in the first `k` pieces.
pub open spec fn joined_len(pieces: Seq<Seq<u8>>, k: int) -> int
    decreases k,
{
    if k <= 0 {
        0
    } else {
        joined_len(pieces, k - 1) + pieces[k - 1].len()
    }
}

proof fn lemma_joined_len_rest(pieces: Seq<Seq<u8>>, k: int)
    requires
        1 <= k <= pieces.len(),
    ensures
        joined_len(pieces, k) == pieces[0].len() + joined_len(pieces.drop_first(), k - 1),
    decreases k,
{
    if k > 1 {
        lemma_joined_len_rest(pieces, k - 1);
    } else {
        reveal_with_fuel(joined_len, 2);
    }
}

/// What holds pieces joined into one holds each of them behind those before it.
pub proof fn lemma_holds_joined(d: Seq<u8>, o: int, pieces: Seq<Seq<u8>>, k: int)
    requires
        holds(d, o, joined(pieces)),
        0 <= k < pieces.len(),
    ensures
        holds(d, o + joined_len(pieces, k), pieces[k]),
    decreases k,
{
    let rest = pieces.drop_first();
    lemma_holds_parts(d, o, pieces[0], joined(rest));
    if k > 0 {
        lemma_holds_joined(d, o + pieces[0].len(), rest, k - 1);
        lemma_joined_len_rest(pieces, k);
    }
}

proof fn lemma_even_len(pieces: Seq<Seq<u8>>, size: int, k: int)
    requires
        0 <= k <= pieces.len(),
        forall|i: int| 0 <= i < k ==> (#[trigger] pieces[i]).len() == size,
    ensures
        joined_len(pieces, k) == size * k,
    decreases k,
{
    if k > 0 {
        lemma_even_len(pieces, size, k - 1);
        assert(size * (k - 1) + size == size * k) by (nonlinear_arith);
    } else {
        assert(size * 0 == 0);
    }
}

/// How many bytes pieces of the same size make together.
pub proof fn lemma_joined_even(p: Seq<Seq<u8>>, size: int)
    requires
        forall|i: int| 0 <= i < p.len() ==> (#[trigger] p[i]).len() == size,
    ensures
        joined(p).len() == size * p.len(),
    decreases p.len(),
{
    if p.len() > 0 {
        lemma_joined_even(p.drop_first(), size);
        let n = p.len() as int;
        assert(size * (n - 1) + size == size * n) by (nonlinear_arith);
    } else {
        assert(size * 0 == 0);
    }
}

proof fn lemma_piece64(d: Seq<u8>, o: int, pieces: Seq<Seq<u8>>, k: int, v: u64)
    requires
        holds(d, o, joined(pieces)),
        0 <= k < pieces.len(),
        forall|i: int| 0 <= i < pieces.len() ==> (#[trigger] pieces[i]).len() == 8,
        pieces[k] == enc64(v),
    ensures
        le64(d, o + 8 * k) == v,
{
    lemma_holds_joined(d, o, pieces, k);
    lemma_even_len(pieces, 8, k);
    law_le64(d, o + 8 * k, v);
}

/// The bytes of a register block are read as its registers.
pub proof fn law_regs_read_back(d: Seq<u8>, o: int, r: KvmRegs)
    requires
        holds(d, o, joined(enc_regs(r))),
    ensures
        regs_model(d, o) == r,
{
    lemma_lens();
    let p = enc_regs(r);
    assert forall|i: int| 0 <= i < p.len() implies (#[trigger] p[i]).len() == 8 by {}
    lemma_piece64(d, o, p, 0, r.rax);
    lemma_piece64(d, o, p, 1, r.rbx);
    lemma_piece64(d, o, p, 2, r.rcx);
    lemma_piece64(d, o, p, 3, r.rdx);
    lemma_piece64(d, o, p, 4, r.rsi);
    lemma_piece64(d, o, p, 5, r.rdi);
    lemma_piece64(d, o, p, 6, r.rsp);
    lemma_piece64(d, o, p, 7, r.rbp);
    lemma_piece64(d, o, p, 8, r.r8);
    lemma_piece64(d, o, p, 9, r.r9);
    lemma_piece64(d, o, p, 10, r.r10);
    lemma_piece64(d, o, p, 11, r.r11);
    lemma_piece64(d, o, p, 12, r.r12);
    lemma_piece64(d, o, p, 13, r.r13);
    lemma_piece64(d, o, p, 14, r.r14);
    lemma_piece64(d, o, p, 15, r.r15);
    lemma_piece64(d, o, p, 16, r.rip);
    lemma_piece64(d, o, p, 17, r.rflags);
}

/// A segment register as bytes, in the order of `struct kvm_segment`.
#[verifier::opaque]
pub open spec fn enc_segment(s: KvmSegment) -> Seq<u8> {
    enc64(s.base) + (enc32(s.limit) + (enc16(s.selector) + seq![
        s.type_,
        s.present,
        s.dpl,
        s.db,
        s.s,
        s.l,
        s.g,
        s.avl,
        s.unusable,
        s.padding,
    ]))
}

/// The bytes of a segment register are read as that register.
pub proof fn law_segment_read_back(d: Seq<u8>, o: int, s: KvmSegment)
    requires
        holds(d, o, enc_segment(s)),
    ensures
        seg_model(d, o) == s,
{
    reveal(enc_segment);
    lemma_lens();
    reveal(holds);
    let flags = seq![
        s.type_, s.present, s.dpl, s.db, s.s, s.l, s.g, s.avl, s.unusable, s.padding,
    ];
    lemma_holds_parts(d, o, enc64(s.base), enc32(s.limit) + (enc16(s.selector) + flags));
    lemma_holds_parts(d, o + 8, enc32(s.limit), enc16(s.selector) + flags);
    lemma_holds_parts(d, o + 12, enc16(s.selector), flags);
    law_le64(d, o, s.base);
    law_le32(d, o + 8, s.limit);
    law_le16(d, o + 12, s.selector);
    assert(d[o + 14 + 0] == flags[0]);
    assert(d[o + 14 + 1] == flags[1]);
    assert(d[o + 14 + 2] == flags[2]);
    assert(d[o + 14 + 3] == flags[3]);
    assert(d[o + 14 + 4] == flags[4]);
    assert(d[o + 14 + 5] == flags[5]);
    assert(d[o + 14 + 6] == flags[6]);
    assert(d[o + 14 + 7] == flags[7]);
    assert(d[o + 14 + 8] == flags[8]);
    assert(d[o + 14 + 9] == flags[9]);
}

/// A descriptor table register as bytes, in the order of `struct kvm_dtable`: the
/// base, the limit, and padding.
pub open spec fn enc_dtable(t: KvmDtable, padding: Seq<u8>) -> Seq<u8> {
    enc64(t.base) + (enc16(t.limit) + padding)
}

/// The segment registers in the order of `struct kvm_sregs`.
pub open spec fn enc_segments(s: KvmSregs) -> Seq<Seq<u8>> {
    seq![
        enc_segment(s.cs),
        enc_segment(s.ds),
        enc_segment(s.es),
        enc_segment(s.fs),
        enc_segment(s.gs),
        enc_segment(s.ss),
        enc_segment(s.tr),
        enc_segment(s.ldt),
    ]
}

/// The control registers, EFER, the APIC base and the interrupt bitmap in the order
/// of `struct kvm_sregs`.
pub open spec fn enc_controls(s: KvmSregs) -> Seq<Seq<u8>> {
    seq![
        enc64(s.cr0),
        enc64(s.cr2),
        enc64(s.cr3),
        enc64(s.cr4),
        enc64(s.cr8),
        enc64(s.efer),
        enc64(s.apic_base),
        enc64(s.interrupt_bitmap[0]),
        enc64(s.interrupt_bitmap[1]),
        enc64(s.interrupt_bitmap[2]),
        enc64(s.interrupt_bitmap[3]),
    ]
}

/// The special registers as bytes, in the order of `struct kvm_sregs`.
pub open spec fn enc_sregs(s: KvmSregs, gdt_padding: Seq<u8>, idt_padding: Seq<u8>) -> Seq<u8> {
    joined(enc_segments(s)) + (enc_dtable(s.gdt, gdt_padding) + (enc_dtable(s.idt, idt_padding)
        + joined(enc_controls(s))))
}

proof fn lemma_joined_total(pieces: Seq<Seq<u8>>)
    ensures
        joined(pieces).len() == joined_len(pieces, pieces.len() as int),
    decreases pieces.len(),
{
    if pieces.len() > 0 {
        lemma_joined_total(pieces.drop_first());
        lemma_joined_len_rest(pieces, pieces.len() as int);
    }
}

proof fn lemma_dtable(d: Seq<u8>, o: int, t: KvmDtable, padding: Seq<u8>)
    requires
        holds(d, o, enc_dtable(t, padding)),
    ensures
        le64(d, o) == t.base,
        le16(d, o + 8) == t.limit,
{
    lemma_lens();
    lemma_holds_parts(d, o, enc64(t.base), enc16(t.limit) + padding);
    lemma_holds_parts(d, o + 8, enc16(t.limit), padding);
    law_le64(d, o, t.base);
    law_le16(d, o + 8, t.limit);
}

proof fn lemma_piece_segment(d: Seq<u8>, o: int, pieces: Seq<Seq<u8>>, k: int, s: KvmSegment)
    requires
        holds(d, o, joined(pieces)),
        0 <= k < pieces.len(),
        forall|i: int| 0 <= i < pieces.len() ==> (#[trigger] pieces[i]).len() == 24,
        pieces[k] == enc_segment(s),
    ensures
        seg_model(d, o + 24 * k) == s,
{
    lemma_holds_joined(d, o, pieces, k);
    lemma_even_len(pieces, 24, k);
    law_segment_read_back(d, o + 24 * k, s);
}

#[verifier::rlimit(30)]
proof fn lemma_segments(d: Seq<u8>, o: int, s: KvmSregs)
    requires
        holds(d, o, joined(enc_segments(s))),
    ensures
        joined(enc_segments(s)).len() == 192,
        seg_model(d, o) == s.cs,
        seg_model(d, o + 24) == s.ds,
        seg_model(d, o + 48) == s.es,
        seg_model(d, o + 72) == s.fs,
        seg_model(d, o + 96) == s.gs,
        seg_model(d, o + 120) == s.ss,
        seg_model(d, o + 144) == s.tr,
        seg_model(d, o + 168) == s.ldt,
{
    lemma_lens();
    let p = enc_segments(s);
    assert forall|i: int| 0 <= i < p.len() implies (#[trigger] p[i]).len() == 24 by {}
    lemma_joined_total(p);
    lemma_even_len(p, 24, 8);
    lemma_piece_segment(d, o, p, 0, s.cs);
    lemma_piece_segment(d, o, p, 1, s.ds);
    lemma_piece_segment(d, o, p, 2, s.es);
    lemma_piece_segment(d, o, p, 3, s.fs);
    lemma_piece_segment(d, o, p, 4, s.gs);
    lemma_piece_segment(d, o, p, 5, s.ss);
    lemma_piece_segment(d, o, p, 6, s.tr);
    lemma_piece_segment(d, o, p, 7, s.ldt);
}

proof fn lemma_controls(d: Seq<u8>, o: int, s: KvmSregs)
    requires
        holds(d, o, joined(enc_controls(s))),
    ensures
        le64(d, o) == s.cr0,
        le64(d, o + 8) == s.cr2,
        le64(d, o + 16) == s.cr3,
        le64(d, o + 24) == s.cr4,
        le64(d, o + 40) == s.efer,
        le64(d, o + 48) == s.apic_base,
{
    lemma_lens();
    let p = enc_controls(s);
    assert forall|i: int| 0 <= i < p.len() implies (#[trigger] p[i]).len() == 8 by {}
    lemma_piece64(d, o, p, 0, s.cr0);
    lemma_piece64(d, o, p, 1, s.cr2);
    lemma_piece64(d, o, p, 2, s.cr3);
    lemma_piece64(d, o, p, 3, s.cr4);
    lemma_piece64(d, o, p, 5, s.efer);
    lemma_piece64(d, o, p, 6, s.apic_base);
}

/// The bytes of the special registers are read as those registers. CR8 and the
/// interrupt bitmap are not taken over.
pub proof fn law_sregs_read_back(d: Seq<u8>, o: int, s: KvmSregs, g: Seq<u8>, i: Seq<u8>)
    requires
        g.len() == 6,
        i.len() == 6,
        holds(d, o, enc_sregs(s, g, i)),
    ensures
        sregs_at(d, o) == (KvmSregs { cr8: 0, interrupt_bitmap: [0, 0, 0, 0], ..s }),
{
    lemma_lens();
    let tables = enc_dtable(s.gdt, g) + (enc_dtable(s.idt, i) + joined(enc_controls(s)));
    lemma_holds_parts(d, o, joined(enc_segments(s)), tables);
    lemma_segments(d, o, s);
    lemma_holds_parts(
        d,
        o + 192,
        enc_dtable(s.gdt, g),
        enc_dtable(s.idt, i) + joined(enc_controls(s)),
    );
    lemma_holds_parts(d, o + 208, enc_dtable(s.idt, i), joined(enc_controls(s)));
    lemma_dtable(d, o + 192, s.gdt, g);
    lemma_dtable(d, o + 208, s.idt, i);
    lemma_controls(d, o + 224, s);
}

/// The byte that a signed byte is stored as.
pub open spec fn enc_signed(b: i8) -> u8 {
    if b < 0 {
        (b + 256) as u8
    } else {
        b as u8
    }
}

/// The bytes of a local APIC register page are read as that page.
pub proof fn law_lapic_read_back(d: Seq<u8>, o: int, page: Seq<i8>)
    requires
        page.len() == 1024,
        holds(d, o, page.map_values(|b: i8| enc_signed(b))),
    ensures
        lapic_model(d, o) == page,
{
    reveal(holds);
    let bytes = page.map_values(|b: i8| enc_signed(b));
    assert forall|i: int| 0 <= i < 1024 implies lapic_model(d, o)[i] == page[i] by {
        assert(d[o + i] == bytes[i]);
    }
    assert(lapic_model(d, o) =~= page);
}

/// The entries of an IOAPIC's redirection table, which follow a header of 24 bytes,
/// are read in their order.
pub proof fn law_redirtbl_read_back(d: Seq<u8>, o: int, table: Seq<u64>)
    requires
        0 <= o,
        table.len() == 24,
        holds(d, o + 24, joined(table.map_values(|v: u64| enc64(v)))),
        o + 24 + 24 * 8 <= d.len(),
    ensures
        redirtbl_model(d, o) == table,
{
    lemma_lens();
    let p = table.map_values(|v: u64| enc64(v));
    assert forall|i: int| 0 <= i < 24 implies redirtbl_model(d, o)[i] == table[i] by {
        assert(p[i] == enc64(table[i]));
        lemma_piece64(d, o + 24, p, i, table[i]);
    }
    assert(redirtbl_model(d, o) =~= table);
}

/// The words of an XSAVE area are read in their order.
pub proof fn law_xsave_read_back(d: Seq<u8>, o: int, words: Seq<u32>)
    requires
        0 <= o,
        words.len() == 1024,
        holds(d, o, joined(words.map_values(|v: u32| enc32(v)))),
        o + 4096 <= d.len(),
    ensures
        xsave_model(d, o) == words,
{
    lemma_lens();
    let p = words.map_values(|v: u32| enc32(v));
    assert forall|i: int| 0 <= i < 1024 implies xsave_model(d, o)[i] == words[i] by {
        assert(p[i] == enc32(words[i]));
        lemma_holds_joined(d, o, p, i);
        lemma_even_len(p, 4, i);
        law_le32(d, o + 4 * i, words[i]);
    }
    assert(xsave_model(d, o) =~= words);
}

/// One extended control register as bytes, in the order of `struct kvm_xcr`.
pub open spec fn enc_xcr(x: KvmXcr) -> Seq<u8> {
    enc32(x.xcr) + (enc32(x.reserved) + enc64(x.value))
}

/// A list of extended control registers, in the order of `struct kvm_xcrs`, is read
/// with its registers first and zeros in the rest of the 16 places.
pub proof fn law_xcrs_read_back(d: Seq<u8>, o: int, flags: u32, list: Seq<KvmXcr>)
    requires
        1 <= list.len() <= 16,
        holds(d, o, enc32(list.len() as u32)),
        holds(d, o + 4, enc32(flags)),
        forall|i: int| 0 <= i < list.len() ==> holds(d, o + 8 + 16 * i, #[trigger] enc_xcr(list[i])),
    ensures
        ({
            let m = xcrs_model(d, o);
            &&& m.nr_xcrs == list.len()
            &&& m.flags == flags
            &&& m.xcrs.len() == 16
            &&& forall|i: int| 0 <= i < list.len() ==> #[trigger] m.xcrs[i] == list[i]
            &&& forall|i: int|
                list.len() <= i < 16 ==> {
                    let x = #[trigger] m.xcrs[i];
                    x.xcr == 0 && x.reserved == 0 && x.value == 0
                }
        }),
{
    lemma_lens();
    law_le32(d, o, list.len() as u32);
    law_le32(d, o + 4, flags);
    lemma_xcr(d, o, list, 0);
    assert forall|i: int| 0 <= i < list.len() implies #[trigger] xcrs_model(d, o).xcrs[i]
        == list[i] by {
        lemma_xcr(d, o, list, i);
    }
}

proof fn lemma_xcr(d: Seq<u8>, o: int, list: Seq<KvmXcr>, i: int)
    requires
        0 <= i < list.len(),
        forall|i: int|
            0 <= i < list.len() ==> holds(d, o + 8 + 16 * i, #[trigger] enc_xcr(list[i])),
    ensures
        o + 24 + 16 * i <= d.len(),
        xcr_entry(d, o, i) == list[i],
{
    lemma_lens();
    let x = list[i];
    let at = o + 8 + 16 * i;
    assert(holds(d, at, enc_xcr(x)));
    lemma_holds_within(d, at, enc_xcr(x));
    lemma_holds_parts(d, at, enc32(x.xcr), enc32(x.reserved) + enc64(x.value));
    lemma_holds_parts(d, at + 4, enc32(x.reserved), enc64(x.value));
    law_le32(d, at, x.xcr);
    law_le32(d, at + 4, x.reserved);
    law_le64(d, at + 8, x.value);
}

/// A CPUID entry as bytes, in the order of `struct kvm_cpuid_entry2`: seven numbers,
/// and padding.
pub open spec fn enc_cpuid(e: KvmCpuidEntry2, padding: Seq<u8>) -> Seq<Seq<u8>> {
    seq![
        enc32(e.function),
        enc32(e.index),
        enc32(e.flags),
        enc32(e.eax),
        enc32(e.ebx),
        enc32(e.ecx),
        enc32(e.edx),
        padding,
    ]
}

/// The bytes of a CPUID entry are read as that entry.
pub proof fn law_cpuid_entry_read_back(
    d: Seq<u8>,
    o: int,
    e: KvmCpuidEntry2,
    padding: Seq<u8>,
)
    requires
        holds(d, o, joined(enc_cpuid(e, padding))),
    ensures
        cpuid_entry(d, o) == e,
{
    lemma_lens();
    let p = enc_cpuid(e, padding);
    assert forall|k: int| 0 <= k < 7 implies holds(d, o + 4 * k, #[trigger] p[k]) by {
        lemma_holds_joined(d, o, p, k);
        lemma_even_len(p, 4, k);
    }
    assert(p[0] == enc32(e.function) && p[1] == enc32(e.index) && p[2] == enc32(e.flags));
    assert(p[3] == enc32(e.eax) && p[4] == enc32(e.ebx) && p[5] == enc32(e.ecx));
    assert(p[6] == enc32(e.edx));
    law_le32(d, o, e.function);
    law_le32(d, o + 4, e.index);
    law_le32(d, o + 8, e.flags);
    law_le32(d, o + 12, e.eax);
    law_le32(d, o + 16, e.ebx);
    law_le32(d, o + 20, e.ecx);
    law_le32(d, o + 24, e.edx);
}

/// Of an XSAVE area that the data cuts short, the whole words are read, and the rest is
/// zero.
pub proof fn law_xsave_cut_short(d: Seq<u8>, o: int, words: Seq<u32>, i: int)
    requires
        0 <= o,
        words.len() < 1024,
        holds(d, o, joined(words.map_values(|v: u32| enc32(v)))),
        o + 4 * words.len() <= d.len() < o + 4 * words.len() + 4,
        0 <= i < 1024,
    ensures
        xsave_model(d, o).len() == 1024,
        xsave_model(d, o)[i] == if i < words.len() {
            words[i]
        } else {
            0
        },
{
    if i < words.len() {
        let p = words.map_values(|v: u32| enc32(v));
        lemma_lens();
        assert(p[i] == enc32(words[i]));
        lemma_holds_joined(d, o, p, i);
        lemma_even_len(p, 4, i);
        law_le32(d, o + 4 * i, words[i]);
    }
}

/// A redirection table that does not lie within the data is read as zeros.
pub proof fn law_redirtbl_outside(d: Seq<u8>, o: int, i: int)
    requires
        o + 216 > d.len(),
        0 <= i < 24,
    ensures
        redirtbl_model(d, o).len() == 24,
        redirtbl_model(d, o)[i] == 0,
{
}

/// A list of extended control registers whose header does not lie within the data is
/// empty. One that gives a number of registers that there is no room for has none.
pub proof fn law_xcrs_without_entries(d: Seq<u8>, o: int, n: u32, i: int)
    requires
        0 <= i < 16,
        o + 24 > d.len() || holds(d, o, enc32(n)) && (n == 0 || n > 16),
    ensures
        ({
            let m = xcrs_model(d, o);
            let x = m.xcrs[i];
            &&& m.xcrs.len() == 16
            &&& x.xcr == 0 && x.reserved == 0 && x.value == 0
            &&& o + 24 > d.len() ==> m.nr_xcrs == 0 && m.flags == 0
        }),
{
    if o + 24 <= d.len() {
        law_le32(d, o, n);
    }
}

} // verus!

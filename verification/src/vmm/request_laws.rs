//! What the block device does with a chain of descriptors that a guest has laid out
//! in its memory, from the bytes of the chain to the bytes of the disk.

use vstd::prelude::*;

use crate::vmm::layout_laws::{
    enc16, enc32, enc64, holds, law_le16, law_le32, law_le64, lemma_holds_parts,
    lemma_holds_within, lemma_lens,
};
use crate::vmm::virtio_blk::{
    base_run, buffers_of, byte_count, desc_at, desc_chain, nth_sector, overlay_write,
    request_bytes, request_memory, request_model, request_overlay, run_data, sector_count,
    sector_data, sector_distance, transfer_in, transfer_out, GuestBuffer, RequestKind, VirtqDesc,
};
use crate::vmm::virtio_blk_laws::{
    image_read, law_read_request_fills_buffers, lemma_transfer_in_len,
};

verus! {

/// A descriptor as bytes, in the order of `struct virtq_desc`.
pub open spec fn enc_desc(d: VirtqDesc) -> Seq<u8> {
    enc64(d.addr) + (enc32(d.len) + (enc16(d.flags) + enc16(d.next)))
}

/// The bytes of a descriptor are read as that descriptor.
pub proof fn law_desc_read_back(mem: Seq<u8>, table: u64, idx: u16, d: VirtqDesc)
    requires
        holds(mem, table + 16 * idx, enc_desc(d)),
    ensures
        desc_at(mem, table, idx) == d,
{
    lemma_lens();
    let a = table + 16 * idx;
    lemma_holds_within(mem, a, enc_desc(d));
    lemma_holds_parts(mem, a, enc64(d.addr), enc32(d.len) + (enc16(d.flags) + enc16(d.next)));
    lemma_holds_parts(mem, a + 8, enc32(d.len), enc16(d.flags) + enc16(d.next));
    lemma_holds_parts(mem, a + 12, enc16(d.flags), enc16(d.next));
    law_le64(mem, a, d.addr);
    law_le32(mem, a + 8, d.len);
    law_le16(mem, a + 12, d.flags);
    law_le16(mem, a + 14, d.next);
}

/// Whether the descriptors `ds` stand at the places `idx` of the table and each but the
/// last names the next: bit 0 of its flags is set, and its next field is that place.
/// The last names none, or is the 257th.
pub open spec fn chained(mem: Seq<u8>, table: u64, idx: Seq<u16>, ds: Seq<VirtqDesc>) -> bool {
    &&& idx.len() == ds.len()
    &&& 1 <= ds.len() <= 257
    &&& forall|k: int|
        0 <= k < ds.len() ==> holds(mem, table + 16 * idx[k], #[trigger] enc_desc(ds[k]))
    &&& forall|k: int|
        0 <= k < ds.len() - 1 ==> (#[trigger] ds[k]).flags % 2 == 1 && ds[k].next == idx[k + 1]
    &&& ds.last().flags % 2 == 0 || ds.len() == 257
}

proof fn lemma_chain_from(mem: Seq<u8>, table: u64, idx: Seq<u16>, ds: Seq<VirtqDesc>, k: int)
    requires
        chained(mem, table, idx, ds),
        0 <= k < ds.len(),
    ensures
        desc_chain(mem, table, idx[k], k) == ds.skip(k),
    decreases ds.len() - k,
{
    assert(holds(mem, table + 16 * idx[k], enc_desc(ds[k])));
    law_desc_read_back(mem, table, idx[k], ds[k]);
    let f = ds[k].flags;
    assert((f & 1 != 0) == (f % 2 == 1)) by (bit_vector);
    if k < ds.len() - 1 {
        lemma_chain_from(mem, table, idx, ds, k + 1);
        assert(seq![ds[k]] + ds.skip(k + 1) =~= ds.skip(k));
    } else {
        assert(seq![ds[k]] =~= ds.skip(k));
    }
}

/// A chain is followed from descriptor to descriptor to its end.
pub proof fn law_chain_followed(mem: Seq<u8>, table: u64, idx: Seq<u16>, ds: Seq<VirtqDesc>)
    requires
        chained(mem, table, idx, ds),
    ensures
        desc_chain(mem, table, idx[0], 0) == ds,
{
    lemma_chain_from(mem, table, idx, ds, 0);
    assert(ds.skip(0) =~= ds);
}

/// Whether data is transferred for a descriptor: it is not empty, and it ends within
/// the memory.
pub open spec fn transferred(d: VirtqDesc, mem_len: int) -> bool {
    d.len != 0 && d.addr + d.len <= mem_len
}

/// The buffer that a descriptor stands for.
pub open spec fn buffer(d: VirtqDesc) -> GuestBuffer {
    GuestBuffer { addr: d.addr, len: d.len }
}

/// The number of whole sectors in the descriptors before the `i`-th for which data is
/// transferred; the first holds the header.
pub open spec fn sectors_before(ds: Seq<VirtqDesc>, mem_len: int, i: int) -> int
    decreases i,
{
    if i <= 1 {
        0
    } else {
        sectors_before(ds, mem_len, i - 1) + if transferred(ds[i - 1], mem_len) {
            ds[i - 1].len as int / 512
        } else {
            0
        }
    }
}

/// The number of bytes in the descriptors before the `i`-th for which data is
/// transferred.
pub open spec fn bytes_before(ds: Seq<VirtqDesc>, mem_len: int, i: int) -> int
    decreases i,
{
    if i <= 1 {
        0
    } else {
        bytes_before(ds, mem_len, i - 1) + if transferred(ds[i - 1], mem_len) {
            ds[i - 1].len as int
        } else {
            0
        }
    }
}

/// The buffers of the descriptors from the second to the one before the `i`-th.
spec fn buffers_until(ds: Seq<VirtqDesc>, mem_len: int, i: int) -> Seq<GuestBuffer> {
    buffers_of(ds.subrange(1, i), mem_len)
}

proof fn lemma_until_step(ds: Seq<VirtqDesc>, n: int, i: int)
    requires
        1 < i <= ds.len(),
    ensures
        buffers_until(ds, n, i) == if transferred(ds[i - 1], n) {
            buffers_until(ds, n, i - 1).push(buffer(ds[i - 1]))
        } else {
            buffers_until(ds, n, i - 1)
        },
{
    let s = ds.subrange(1, i);
    assert(s.drop_last() =~= ds.subrange(1, i - 1));
    assert(s.last() == ds[i - 1]);
}

proof fn lemma_until_counts(ds: Seq<VirtqDesc>, n: int, i: int)
    requires
        1 <= i <= ds.len(),
    ensures
        sector_count(buffers_until(ds, n, i)) == sectors_before(ds, n, i),
        byte_count(buffers_until(ds, n, i)) == bytes_before(ds, n, i),
    decreases i,
{
    if i == 1 {
        assert(ds.subrange(1, 1) =~= seq![]);
    } else {
        lemma_until_step(ds, n, i);
        lemma_until_counts(ds, n, i - 1);
        let before = buffers_until(ds, n, i - 1);
        assert(before.push(buffer(ds[i - 1])).drop_last() =~= before);
    }
}

proof fn lemma_until_grows(ds: Seq<VirtqDesc>, n: int, i: int, m: int)
    requires
        1 <= i <= m <= ds.len(),
    ensures
        ({
            let b = buffers_until(ds, n, m);
            let a = buffers_until(ds, n, i);
            &&& a.len() <= b.len()
            &&& b.take(a.len() as int) == a
            &&& i < m && transferred(ds[i], n) ==> a.len() < b.len() && b[a.len() as int] == buffer(
                ds[i],
            )
        }),
    decreases m - i,
{
    let a = buffers_until(ds, n, i);
    let b = buffers_until(ds, n, m);
    if i == m {
        assert(b.take(a.len() as int) =~= a);
    } else {
        lemma_until_grows(ds, n, i + 1, m);
        lemma_until_step(ds, n, i + 1);
        let c = buffers_until(ds, n, i + 1);
        assert(b.take(a.len() as int) =~= c.take(a.len() as int));
        assert(c.take(a.len() as int) =~= a);
        if transferred(ds[i], n) {
            assert(b[a.len() as int] == b.take(c.len() as int)[a.len() as int]);
        }
    }
}

/// The descriptor that a buffer comes from.
proof fn lemma_buffer_source(ds: Seq<VirtqDesc>, n: int, m: int, l: int) -> (i: int)
    requires
        1 <= m <= ds.len(),
        0 <= l < buffers_until(ds, n, m).len(),
    ensures
        1 <= i < m,
        transferred(ds[i], n),
        buffers_until(ds, n, i).len() == l,
        buffers_until(ds, n, m)[l] == buffer(ds[i]),
    decreases m,
{
    if m == 1 {
        assert(ds.subrange(1, 1) =~= seq![]);
        1
    } else {
        lemma_until_step(ds, n, m);
        let before = buffers_until(ds, n, m - 1);
        if l < before.len() {
            lemma_buffer_source(ds, n, m - 1, l)
        } else {
            m - 1
        }
    }
}

proof fn lemma_filtered(ds: Seq<VirtqDesc>, n: int)
    ensures
        buffers_of(ds, n) == ds.filter(|d: VirtqDesc| transferred(d, n)).map_values(
            |d: VirtqDesc| buffer(d),
        ),
    decreases ds.len(),
{
    reveal(Seq::filter);
    let p = |d: VirtqDesc| transferred(d, n);
    let f = |d: VirtqDesc| buffer(d);
    if ds.len() == 0 {
        assert(buffers_of(ds, n) =~= ds.filter(p).map_values(f));
    } else {
        lemma_filtered(ds.drop_last(), n);
        assert(buffers_of(ds, n) =~= ds.filter(p).map_values(f));
    }
}

/// Whether a request stands in the memory: a chain of at least two descriptors whose
/// first holds the type and the sector.
pub open spec fn request_in(
    mem: Seq<u8>,
    table: u64,
    idx: Seq<u16>,
    ds: Seq<VirtqDesc>,
    kind: u32,
    sector: u64,
) -> bool {
    &&& chained(mem, table, idx, ds)
    &&& ds.len() >= 2
    &&& holds(mem, ds[0].addr as int, enc32(kind))
    &&& holds(mem, ds[0].addr + 8, enc64(sector))
}

/// A request to read or to write is carried out for every descriptor between the first
/// and the last that is not empty and ends within the memory, in the order of the
/// chain, each with its address and its whole length. The last holds the status.
pub proof fn law_request_planned(
    mem: Seq<u8>,
    ov: Map<u64, Seq<u8>>,
    table: u64,
    idx: Seq<u16>,
    ds: Seq<VirtqDesc>,
    kind: u32,
    sector: u64,
)
    requires
        request_in(mem, table, idx, ds, kind, sector),
    ensures
        ({
            let req = request_model(mem, ov, table, idx[0]);
            &&& req.head == idx[0]
            &&& req.kind == if kind == 0 {
                RequestKind::In
            } else if kind == 1 {
                RequestKind::Out
            } else {
                RequestKind::Other
            }
            &&& req.sector == sector
            &&& req.status_addr == ds.last().addr
            &&& req.buffers == if kind <= 1 {
                ds.subrange(1, ds.len() - 1).filter(
                    |d: VirtqDesc| transferred(d, mem.len() as int),
                ).map_values(|d: VirtqDesc| buffer(d))
            } else {
                seq![]
            }
        }),
{
    law_chain_followed(mem, table, idx, ds);
    lemma_lens();
    lemma_holds_within(mem, ds[0].addr as int, enc32(kind));
    lemma_holds_within(mem, ds[0].addr + 8, enc64(sector));
    law_le32(mem, ds[0].addr as int, kind);
    law_le64(mem, ds[0].addr + 8, sector);
    lemma_filtered(ds.subrange(1, ds.len() - 1), mem.len() as int);
}

/// The sector of a disk: what the fork has written, else what the base image holds.
pub open spec fn disk_sector(
    ov: Map<u64, Seq<u8>>,
    image: spec_fn(u64) -> Seq<u8>,
    s: int,
) -> Seq<u8> {
    let k = (s % 0x1_0000_0000_0000_0000) as u64;
    if ov.contains_key(k) {
        ov[k]
    } else {
        image(k)
    }
}

/// Whether no data that is transferred later goes to the guest address `a`: neither
/// that of a descriptor after the `i`-th, nor the status.
pub open spec fn not_overwritten(ds: Seq<VirtqDesc>, mem_len: int, i: int, a: int) -> bool {
    &&& forall|l: int|
        i < l < ds.len() - 1 && transferred(#[trigger] ds[l], mem_len) ==> !(ds[l].addr <= a
            < ds[l].addr + ds[l].len)
    &&& a != ds.last().addr
}

/// After a request to read, every whole sector of every descriptor between the first
/// and the last that is not empty and ends within the memory holds a sector of the
/// disk: the sectors follow one another from the one that the header names on, through
/// all these descriptors.
pub proof fn law_read_carried_out(
    mem: Seq<u8>,
    ov: Map<u64, Seq<u8>>,
    image: spec_fn(u64) -> Seq<u8>,
    table: u64,
    idx: Seq<u16>,
    ds: Seq<VirtqDesc>,
    sector: u64,
    i: int,
    j: int,
)
    requires
        request_in(mem, table, idx, ds, 0, sector),
        1 <= i < ds.len() - 1,
        ds[i].len != 0,
        ds[i].addr + ds[i].len <= mem.len(),
        0 <= j < ds[i].len / 512 * 512,
        not_overwritten(ds, mem.len() as int, i, ds[i].addr + j),
    ensures
        ({
            let req = request_model(mem, ov, table, idx[0]);
            let after = request_memory(req, ov, image_read(req, image), mem);
            let s = sector + sectors_before(ds, mem.len() as int, i) + j / 512;
            j % 512 < disk_sector(ov, image, s).len() ==> after[ds[i].addr + j] == disk_sector(
                ov,
                image,
                s,
            )[j % 512]
        }),
{
    let n = mem.len() as int;
    let m = ds.len() - 1;
    let req = request_model(mem, ov, table, idx[0]);
    law_request_planned(mem, ov, table, idx, ds, 0, sector);
    law_chain_followed(mem, table, idx, ds);
    let buffers = buffers_until(ds, n, m);
    assert(req.buffers == buffers);
    let before = buffers_until(ds, n, i);
    let r = before.len() as int;
    lemma_until_grows(ds, n, i, m);
    lemma_until_counts(ds, n, i);
    let base = image_read(req, image);
    let sectors = run_data(ov, sector, base);
    let at = ds[i].addr + j;
    assert forall|l: int| r < l < buffers.len() implies !((#[trigger] buffers[l]).addr <= at
        < buffers[l].addr + buffers[l].len) by {
        let k = lemma_buffer_source(ds, n, m, l);
        if k <= i {
            lemma_until_grows(ds, n, k, i);
        }
        assert(transferred(ds[k], n));
    }
    law_read_request_fills_buffers(mem, buffers, sectors, r, j);
    lemma_transfer_in_len(mem, buffers, sectors);
    let q = sectors_before(ds, n, i) + j / 512;
    assert(sectors[q] == sector_data(ov, nth_sector(sector, q), base[q]));
    assert(req.base_sectors[q] == base_run(ov, sector, sector_count(buffers) as int)[q]);
}

/// A request to read changes no byte of the memory outside of the whole sectors of the
/// descriptors that data is transferred for, and the status.
pub proof fn law_read_touches_nothing_else(
    mem: Seq<u8>,
    ov: Map<u64, Seq<u8>>,
    image: spec_fn(u64) -> Seq<u8>,
    table: u64,
    idx: Seq<u16>,
    ds: Seq<VirtqDesc>,
    sector: u64,
    a: int,
)
    requires
        request_in(mem, table, idx, ds, 0, sector),
        0 <= a < mem.len(),
        forall|l: int|
            1 <= l < ds.len() - 1 && transferred(#[trigger] ds[l], mem.len() as int) ==> !(
            ds[l].addr <= a < ds[l].addr + ds[l].len / 512 * 512),
        a != ds.last().addr,
    ensures
        ({
            let req = request_model(mem, ov, table, idx[0]);
            request_memory(req, ov, image_read(req, image), mem)[a] == mem[a]
        }),
{
    let n = mem.len() as int;
    let m = ds.len() - 1;
    let req = request_model(mem, ov, table, idx[0]);
    law_request_planned(mem, ov, table, idx, ds, 0, sector);
    law_chain_followed(mem, table, idx, ds);
    let buffers = buffers_until(ds, n, m);
    let sectors = run_data(ov, sector, image_read(req, image));
    assert forall|l: int| 0 <= l < buffers.len() implies !((#[trigger] buffers[l]).addr <= a
        < buffers[l].addr + buffers[l].len / 512 * 512) by {
        let k = lemma_buffer_source(ds, n, m, l);
        assert(transferred(ds[k], n));
    }
    lemma_outside_unchanged(mem, buffers, sectors, a);
    lemma_transfer_in_len(mem, buffers, sectors);
}

proof fn lemma_outside_unchanged(
    mem: Seq<u8>,
    buffers: Seq<GuestBuffer>,
    sectors: Seq<Seq<u8>>,
    a: int,
)
    requires
        sectors.len() >= sector_count(buffers),
        0 <= a < mem.len(),
        forall|l: int|
            0 <= l < buffers.len() ==> !((#[trigger] buffers[l]).addr <= a < buffers[l].addr
                + buffers[l].len / 512 * 512),
    ensures
        transfer_in(mem, buffers, sectors)[a] == mem[a],
    decreases buffers.len(),
{
    if buffers.len() > 0 {
        let front = buffers.drop_last();
        lemma_transfer_in_len(mem, front, sectors);
        assert forall|l: int| 0 <= l < front.len() implies !((#[trigger] front[l]).addr <= a
            < front[l].addr + front[l].len / 512 * 512) by {
            assert(buffers[l] == front[l]);
        }
        lemma_outside_unchanged(mem, front, sectors, a);
        assert(buffers[buffers.len() - 1] == buffers.last());
    }
}

/// A request that was carried out has its status set to success, and reports the bytes
/// of all descriptors that data was transferred for and of the status.
pub proof fn law_status_and_length(
    mem: Seq<u8>,
    ov: Map<u64, Seq<u8>>,
    base: Seq<Seq<u8>>,
    table: u64,
    idx: Seq<u16>,
    ds: Seq<VirtqDesc>,
    kind: u32,
    sector: u64,
)
    requires
        request_in(mem, table, idx, ds, kind, sector),
        ds.last().addr < mem.len(),
    ensures
        ({
            let req = request_model(mem, ov, table, idx[0]);
            let data = if kind <= 1 {
                bytes_before(ds, mem.len() as int, ds.len() - 1)
            } else {
                0
            };
            &&& request_memory(req, ov, base, mem)[ds.last().addr as int] == 0
            &&& request_bytes(req, mem.len() as int) == (data + 1) % 0x1_0000_0000
        }),
{
    let req = request_model(mem, ov, table, idx[0]);
    law_request_planned(mem, ov, table, idx, ds, kind, sector);
    law_chain_followed(mem, table, idx, ds);
    lemma_until_counts(ds, mem.len() as int, ds.len() - 1);
    lemma_transfer_in_len(mem, req.buffers, run_data(ov, req.sector, base));
}

proof fn lemma_few_sectors(ds: Seq<VirtqDesc>, n: int, i: int, m: int)
    requires
        1 <= i <= m <= ds.len(),
        ds.len() <= 257,
    ensures
        0 <= sectors_before(ds, n, i) <= sectors_before(ds, n, m),
        sectors_before(ds, n, m) <= 0x80_0000 * m,
        i < m && transferred(ds[i], n) ==> sectors_before(ds, n, i) + ds[i].len / 512
            <= sectors_before(ds, n, m),
    decreases m,
{
    if i < m {
        lemma_few_sectors(ds, n, i, m - 1);
    } else if m > 1 {
        lemma_few_sectors(ds, n, m - 1, m - 1);
    }
}

/// After a request to write, the disk holds every whole sector of every descriptor
/// between the first and the last that is not empty and ends within the memory: the
/// sectors follow one another from the one that the header names on, through all these
/// descriptors.
pub proof fn law_write_carried_out(
    mem: Seq<u8>,
    ov: Map<u64, Seq<u8>>,
    image: spec_fn(u64) -> Seq<u8>,
    table: u64,
    idx: Seq<u16>,
    ds: Seq<VirtqDesc>,
    sector: u64,
    i: int,
    q: int,
)
    requires
        request_in(mem, table, idx, ds, 1, sector),
        1 <= i < ds.len() - 1,
        ds[i].len != 0,
        ds[i].addr + ds[i].len <= mem.len(),
        0 <= q < ds[i].len / 512,
    ensures
        ({
            let req = request_model(mem, ov, table, idx[0]);
            let s = sector + sectors_before(ds, mem.len() as int, i) + q;
            disk_sector(request_overlay(req, ov, mem), image, s) == mem.subrange(
                ds[i].addr + 512 * q,
                ds[i].addr + 512 * q + 512,
            )
        }),
{
    let n = mem.len() as int;
    let m = ds.len() - 1;
    law_request_planned(mem, ov, table, idx, ds, 1, sector);
    law_chain_followed(mem, table, idx, ds);
    lemma_written(mem, ov, ds, sector, m, i, q);
}

#[verifier::rlimit(30)]
proof fn lemma_written(
    mem: Seq<u8>,
    ov: Map<u64, Seq<u8>>,
    ds: Seq<VirtqDesc>,
    sector: u64,
    m: int,
    i: int,
    q: int,
)
    requires
        1 <= i < m < ds.len() <= 257,
        transferred(ds[i], mem.len() as int),
        0 <= q < ds[i].len / 512,
    ensures
        ({
            let after = transfer_out(ov, mem, buffers_until(ds, mem.len() as int, m), sector);
            let k = nth_sector(sector, sectors_before(ds, mem.len() as int, i) + q);
            &&& after.contains_key(k)
            &&& after[k] == mem.subrange(ds[i].addr + 512 * q, ds[i].addr + 512 * q + 512)
        }),
    decreases m,
{
    let n = mem.len() as int;
    let d = ds[m - 1];
    let buffers = buffers_until(ds, n, m);
    let before = buffers_until(ds, n, m - 1);
    let at = sectors_before(ds, n, i) + q;
    let from = sectors_before(ds, n, m - 1);
    lemma_until_step(ds, n, m);
    lemma_few_sectors(ds, n, i, m - 1);
    let k = nth_sector(sector, at);
    if transferred(d, n) {
        let piece = mem.subrange(d.addr as int, d.addr + d.len);
        let earlier = transfer_out(ov, mem, before, sector);
        lemma_last_write(ov, mem, ds, sector, m);
        lemma_distance(sector, from, at);
        if i == m - 1 {
            lemma_overlay_in(earlier, nth_sector(sector, from), piece, k, q);
            assert(piece.subrange(q * 512, q * 512 + 512) =~= mem.subrange(
                d.addr + 512 * q,
                d.addr + 512 * q + 512,
            ));
        } else {
            lemma_written(mem, ov, ds, sector, m - 1, i, q);
            lemma_overlay_out(earlier, nth_sector(sector, from), piece, k);
        }
    } else {
        lemma_written(mem, ov, ds, sector, m - 1, i, q);
    }
}

proof fn lemma_last_write(
    ov: Map<u64, Seq<u8>>,
    mem: Seq<u8>,
    ds: Seq<VirtqDesc>,
    sector: u64,
    m: int,
)
    requires
        1 < m <= ds.len(),
        transferred(ds[m - 1], mem.len() as int),
    ensures
        ({
            let n = mem.len() as int;
            let d = ds[m - 1];
            transfer_out(ov, mem, buffers_until(ds, n, m), sector) == overlay_write(
                transfer_out(ov, mem, buffers_until(ds, n, m - 1), sector),
                nth_sector(sector, sectors_before(ds, n, m - 1)),
                mem.subrange(d.addr as int, d.addr + d.len),
            )
        }),
{
    let n = mem.len() as int;
    lemma_until_step(ds, n, m);
    lemma_until_counts(ds, n, m - 1);
    assert(buffers_until(ds, n, m).drop_last() =~= buffers_until(ds, n, m - 1));
}

proof fn lemma_distance(sector: u64, a: int, b: int)
    requires
        0 <= a <= 0x1_0000_0000,
        0 <= b < 0x1_0000_0000_0000_0000,
    ensures
        sector_distance(nth_sector(sector, a), nth_sector(sector, b)) == if a <= b {
            b - a
        } else {
            b - a + 0x1_0000_0000_0000_0000
        },
{
}

proof fn lemma_overlay_in(ov: Map<u64, Seq<u8>>, s: u64, data: Seq<u8>, k: u64, q: int)
    requires
        sector_distance(s, k) == q,
        0 <= q < data.len() as int / 512,
    ensures
        overlay_write(ov, s, data).contains_key(k),
        overlay_write(ov, s, data)[k] == data.subrange(q * 512, q * 512 + 512),
{
}

proof fn lemma_overlay_out(ov: Map<u64, Seq<u8>>, s: u64, data: Seq<u8>, k: u64)
    requires
        sector_distance(s, k) >= data.len() as int / 512,
    ensures
        overlay_write(ov, s, data).contains_key(k) == ov.contains_key(k),
        ov.contains_key(k) ==> overlay_write(ov, s, data)[k] == ov[k],
{
}

/// A request to write changes no other sector of the disk.
pub proof fn law_write_touches_nothing_else(
    mem: Seq<u8>,
    ov: Map<u64, Seq<u8>>,
    image: spec_fn(u64) -> Seq<u8>,
    table: u64,
    idx: Seq<u16>,
    ds: Seq<VirtqDesc>,
    sector: u64,
    q: int,
)
    requires
        request_in(mem, table, idx, ds, 1, sector),
        sectors_before(ds, mem.len() as int, ds.len() - 1) <= q < 0x1_0000_0000_0000_0000,
    ensures
        ({
            let req = request_model(mem, ov, table, idx[0]);
            disk_sector(request_overlay(req, ov, mem), image, sector + q) == disk_sector(
                ov,
                image,
                sector + q,
            )
        }),
{
    law_request_planned(mem, ov, table, idx, ds, 1, sector);
    law_chain_followed(mem, table, idx, ds);
    lemma_not_written(mem, ov, ds, sector, ds.len() - 1, q);
}

proof fn lemma_not_written(
    mem: Seq<u8>,
    ov: Map<u64, Seq<u8>>,
    ds: Seq<VirtqDesc>,
    sector: u64,
    m: int,
    q: int,
)
    requires
        1 <= m < ds.len() <= 257,
        sectors_before(ds, mem.len() as int, m) <= q < 0x1_0000_0000_0000_0000,
    ensures
        ({
            let after = transfer_out(ov, mem, buffers_until(ds, mem.len() as int, m), sector);
            let k = nth_sector(sector, q);
            &&& after.contains_key(k) == ov.contains_key(k)
            &&& ov.contains_key(k) ==> after[k] == ov[k]
        }),
    decreases m,
{
    let n = mem.len() as int;
    if m == 1 {
        assert(ds.subrange(1, 1) =~= seq![]);
    } else {
        let d = ds[m - 1];
        lemma_until_step(ds, n, m);
        lemma_few_sectors(ds, n, m - 1, m);
        lemma_not_written(mem, ov, ds, sector, m - 1, q);
        if transferred(d, n) {
            let from = sectors_before(ds, n, m - 1);
            let earlier = transfer_out(ov, mem, buffers_until(ds, n, m - 1), sector);
            let piece = mem.subrange(d.addr as int, d.addr + d.len);
            lemma_last_write(ov, mem, ds, sector, m);
            lemma_distance(sector, from, q);
            lemma_overlay_out(earlier, nth_sector(sector, from), piece, nth_sector(sector, q));
        }
    }
}

/// For a request to read, the sectors from the one that the header names on are read from
/// the base image, as many as there are whole sectors in the descriptors that data is
/// transferred for, but for those that the fork has written. For any other, none are.
pub proof fn law_base_sectors(
    mem: Seq<u8>,
    ov: Map<u64, Seq<u8>>,
    table: u64,
    idx: Seq<u16>,
    ds: Seq<VirtqDesc>,
    kind: u32,
    sector: u64,
    k: int,
)
    requires
        request_in(mem, table, idx, ds, kind, sector),
        0 <= k < sectors_before(ds, mem.len() as int, ds.len() - 1),
    ensures
        ({
            let req = request_model(mem, ov, table, idx[0]);
            let s = ((sector + k) % 0x1_0000_0000_0000_0000) as u64;
            if kind == 0 {
                &&& req.base_sectors.len() == sectors_before(ds, mem.len() as int, ds.len() - 1)
                &&& req.base_sectors[k] == if ov.contains_key(s) {
                    None
                } else {
                    Some(s)
                }
            } else {
                req.base_sectors.len() == 0
            }
        }),
{
    law_request_planned(mem, ov, table, idx, ds, kind, sector);
    law_chain_followed(mem, table, idx, ds);
    lemma_until_counts(ds, mem.len() as int, ds.len() - 1);
}

/// A chain of one descriptor is no request: nothing is done for it, and no bytes are
/// reported.
pub proof fn law_short_chain(
    mem: Seq<u8>,
    ov: Map<u64, Seq<u8>>,
    base: Seq<Seq<u8>>,
    table: u64,
    idx: Seq<u16>,
    ds: Seq<VirtqDesc>,
)
    requires
        chained(mem, table, idx, ds),
        ds.len() == 1,
    ensures
        ({
            let req = request_model(mem, ov, table, idx[0]);
            &&& req.head == idx[0]
            &&& request_memory(req, ov, base, mem) == mem
            &&& request_overlay(req, ov, mem) == ov
            &&& request_bytes(req, mem.len() as int) == 0
        }),
{
    law_chain_followed(mem, table, idx, ds);
}

/// A request that does not read changes nothing in the memory but the status. One that
/// does not write changes nothing on the disk.
pub proof fn law_only_status_written(
    mem: Seq<u8>,
    ov: Map<u64, Seq<u8>>,
    base: Seq<Seq<u8>>,
    table: u64,
    idx: Seq<u16>,
    ds: Seq<VirtqDesc>,
    kind: u32,
    sector: u64,
    a: int,
)
    requires
        request_in(mem, table, idx, ds, kind, sector),
        0 <= a < mem.len(),
        a != ds.last().addr,
    ensures
        ({
            let req = request_model(mem, ov, table, idx[0]);
            &&& kind != 0 ==> request_memory(req, ov, base, mem)[a] == mem[a]
            &&& kind != 1 ==> request_overlay(req, ov, mem) == ov
        }),
{
    law_request_planned(mem, ov, table, idx, ds, kind, sector);
}

/// A status outside of the memory is neither written nor reported.
pub proof fn law_status_outside(
    mem: Seq<u8>,
    ov: Map<u64, Seq<u8>>,
    base: Seq<Seq<u8>>,
    table: u64,
    idx: Seq<u16>,
    ds: Seq<VirtqDesc>,
    kind: u32,
    sector: u64,
)
    requires
        request_in(mem, table, idx, ds, kind, sector),
        ds.last().addr >= mem.len(),
    ensures
        ({
            let req = request_model(mem, ov, table, idx[0]);
            let data = if kind <= 1 {
                bytes_before(ds, mem.len() as int, ds.len() - 1)
            } else {
                0
            };
            &&& request_bytes(req, mem.len() as int) == data % 0x1_0000_0000
            &&& kind != 0 ==> request_memory(req, ov, base, mem) == mem
        }),
{
    law_request_planned(mem, ov, table, idx, ds, kind, sector);
    law_chain_followed(mem, table, idx, ds);
    lemma_until_counts(ds, mem.len() as int, ds.len() - 1);
}

} // verus!

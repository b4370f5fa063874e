//! What holds of the block device across its operations.

use vstd::arithmetic::div_mod::{lemma_fundamental_div_mod, lemma_mod_mod};
use vstd::prelude::*;

use crate::bytes::le32;
use crate::vmm::guest_memory::{guest16, guest32, in_memory};
use crate::vmm::virtio_blk::{
    after_write, all_within, base_run, bytes32, completed_device, completed_memory, event_asked,
    interrupted, next_head, nth_sector, overlay_write, push_used, register_bytes, request_bytes,
    request_memory, request_model, request_overlay, resumed, run_data, sector_count, sector_data, sector_distance, transfer_in,
    transfer_out, write_effect, written_value, GuestBuffer, MmioEffect, RequestKind, RequestModel,
    VirtioBlkModel, VirtioQueueAddrs, MMIO_CONFIG, MMIO_INTERRUPT_ACK, MMIO_INTERRUPT_STATUS,
    MMIO_QUEUE_NOTIFY, MMIO_STATUS,
};

verus! {

/// A sector that was written reads back as what was written, whatever the base
/// image holds.
pub proof fn law_read_after_write(
    ov: Map<u64, Seq<u8>>,
    s: u64,
    data: Seq<u8>,
    i: int,
    base: Seq<u8>,
)
    requires
        0 <= i < data.len() / 512,
        i <= u64::MAX,
    ensures
        sector_data(overlay_write(ov, s, data), nth_sector(s, i), base) == data.subrange(
            i * 512,
            i * 512 + 512,
        ),
{
    assert(sector_distance(s, nth_sector(s, i)) == i);
}

/// A write leaves every other sector as it was.
pub proof fn law_other_sectors_unchanged(
    ov: Map<u64, Seq<u8>>,
    s: u64,
    data: Seq<u8>,
    k: u64,
    base: Seq<u8>,
)
    requires
        sector_distance(s, k) >= data.len() / 512,
    ensures
        sector_data(overlay_write(ov, s, data), k, base) == sector_data(ov, k, base),
        overlay_write(ov, s, data).contains_key(k) == ov.contains_key(k),
{
}

/// Before the first write, every sector comes from the base image.
pub proof fn law_fresh_disk_is_base(s: u64, n: nat, base: Seq<Seq<u8>>)
    requires
        base.len() == n,
    ensures
        forall|k: int|
            0 <= k < n ==> #[trigger] base_run(Map::empty(), s, n as int)[k] == Some(
                nth_sector(s, k),
            ),
        run_data(Map::empty(), s, base) == base,
{
    assert(run_data(Map::empty(), s, base) =~= base);
}

/// The whole sectors in the buffers, one buffer after the other.
pub open spec fn gathered(mem: Seq<u8>, buffers: Seq<GuestBuffer>) -> Seq<u8>
    decreases buffers.len(),
{
    if buffers.len() == 0 {
        seq![]
    } else {
        let b = buffers.last();
        gathered(mem, buffers.drop_last()) + mem.subrange(
            b.addr as int,
            b.addr + b.len / 512 * 512,
        )
    }
}

proof fn lemma_gathered_len(mem: Seq<u8>, buffers: Seq<GuestBuffer>)
    requires
        forall|i: int|
            0 <= i < buffers.len() ==> (#[trigger] buffers[i]).addr + buffers[i].len <= mem.len(),
    ensures
        gathered(mem, buffers).len() == sector_count(buffers) * 512,
    decreases buffers.len(),
{
    if buffers.len() > 0 {
        lemma_gathered_len(mem, buffers.drop_last());
    }
}

/// A write request writes the whole sectors of its buffers one after the other, as
/// if they were one.
#[verifier::rlimit(30)]
pub proof fn law_write_request_is_one_write(
    ov: Map<u64, Seq<u8>>,
    mem: Seq<u8>,
    buffers: Seq<GuestBuffer>,
    s: u64,
)
    requires
        forall|i: int|
            0 <= i < buffers.len() ==> (#[trigger] buffers[i]).addr + buffers[i].len <= mem.len(),
        sector_count(buffers) <= u64::MAX,
    ensures
        transfer_out(ov, mem, buffers, s) == overlay_write(ov, s, gathered(mem, buffers)),
    decreases buffers.len(),
{
    let all = gathered(mem, buffers);
    if buffers.len() == 0 {
        assert(overlay_write(ov, s, all) =~= ov);
    } else {
        let front = buffers.drop_last();
        let b = buffers.last();
        let n = sector_count(front) as int;
        let before = gathered(mem, front);
        let piece = mem.subrange(b.addr as int, b.addr + b.len);
        law_write_request_is_one_write(ov, mem, front, s);
        lemma_gathered_len(mem, front);
        lemma_gathered_len(mem, buffers);
        let one = overlay_write(ov, s, all);
        let two = overlay_write(overlay_write(ov, s, before), nth_sector(s, n), piece);
        assert forall|k: u64|
            {
                &&& one.contains_key(k) == two.contains_key(k)
                &&& one.contains_key(k) ==> #[trigger] one[k] == two[k]
            } by {
            lemma_distance_from(s, n, k);
            let i = sector_distance(s, k);
            if i < n {
                assert(all.subrange(i * 512, i * 512 + 512) =~= before.subrange(
                    i * 512,
                    i * 512 + 512,
                ));
            } else if i < sector_count(buffers) {
                let j = i - n;
                assert(all.subrange(i * 512, i * 512 + 512) =~= piece.subrange(
                    j * 512,
                    j * 512 + 512,
                ));
            }
        }
        assert(one.dom() =~= two.dom());
        assert(one =~= two);
    }
}

proof fn lemma_distance_from(s: u64, n: int, k: u64)
    requires
        0 <= n <= u64::MAX,
    ensures
        sector_distance(s, k) >= n ==> sector_distance(nth_sector(s, n), k) == sector_distance(s, k)
            - n,
        sector_distance(s, k) < n ==> sector_distance(nth_sector(s, n), k) == sector_distance(s, k)
            - n + 0x1_0000_0000_0000_0000,
{
}

/// What a write request wrote is what the sectors hold for every later read,
/// whatever the base image holds.
pub proof fn law_read_request_sees_write_request(
    ov: Map<u64, Seq<u8>>,
    mem: Seq<u8>,
    buffers: Seq<GuestBuffer>,
    s: u64,
    base: Seq<Seq<u8>>,
    k: int,
)
    requires
        forall|i: int|
            0 <= i < buffers.len() ==> (#[trigger] buffers[i]).addr + buffers[i].len <= mem.len(),
        sector_count(buffers) <= u64::MAX,
        0 <= k < sector_count(buffers),
        k < base.len(),
    ensures
        run_data(transfer_out(ov, mem, buffers, s), s, base)[k] == gathered(mem, buffers).subrange(
            k * 512,
            k * 512 + 512,
        ),
{
    law_write_request_is_one_write(ov, mem, buffers, s);
    lemma_gathered_len(mem, buffers);
    law_read_after_write(ov, s, gathered(mem, buffers), k, base[k]);
}

/// Reading into buffers keeps the size of the memory.
pub proof fn lemma_transfer_in_len(mem: Seq<u8>, buffers: Seq<GuestBuffer>, sectors: Seq<Seq<u8>>)
    ensures
        transfer_in(mem, buffers, sectors).len() == mem.len(),
    decreases buffers.len(),
{
    if buffers.len() > 0 {
        lemma_transfer_in_len(mem, buffers.drop_last(), sectors);
    }
}

/// A read request fills each buffer, as far as whole sectors go and no later buffer
/// overlaps it, with the sectors that fall to it.
pub proof fn law_read_request_fills_buffers(
    mem: Seq<u8>,
    buffers: Seq<GuestBuffer>,
    sectors: Seq<Seq<u8>>,
    i: int,
    j: int,
)
    requires
        sectors.len() >= sector_count(buffers),
        0 <= i < buffers.len(),
        buffers[i].addr + buffers[i].len <= mem.len(),
        0 <= j < buffers[i].len / 512 * 512,
        forall|l: int|
            i < l < buffers.len() ==> !((#[trigger] buffers[l]).addr <= buffers[i].addr + j
                < buffers[l].addr + buffers[l].len),
    ensures
        0 <= sector_count(buffers.take(i)) + j / 512 < sector_count(buffers),
        transfer_in(mem, buffers, sectors)[buffers[i].addr + j] == {
            let sector = sectors[sector_count(buffers.take(i)) + j / 512];
            if j % 512 < sector.len() {
                sector[j % 512]
            } else {
                transfer_in(mem, buffers.take(i), sectors)[buffers[i].addr + j]
            }
        },
    decreases buffers.len(),
{
    let front = buffers.drop_last();
    let b = buffers.last();
    let at = buffers[i].addr + j;
    lemma_transfer_in_len(mem, front, sectors);
    if i == buffers.len() - 1 {
        assert(buffers.take(i) =~= front);
    } else {
        assert(front.take(i) =~= buffers.take(i));
        law_read_request_fills_buffers(mem, front, sectors, i, j);
        assert(!(b.addr <= at < b.addr + b.len)) by {
            assert(buffers[buffers.len() - 1] == b);
        }
    }
}

/// A read request gives back what a write request to the same sectors wrote, byte for
/// byte, however either is split into buffers and whatever the base image holds. The
/// bytes in question are those that no later buffer of the read, nor its status,
/// overwrites.
pub proof fn law_write_then_read(
    ov: Map<u64, Seq<u8>>,
    written: RequestModel,
    mem: Seq<u8>,
    read: RequestModel,
    base: Seq<Seq<u8>>,
    later: Seq<u8>,
    i: int,
    j: int,
)
    requires
        written.kind == RequestKind::Out,
        read.kind == RequestKind::In,
        read.sector == written.sector,
        forall|l: int|
            0 <= l < written.buffers.len() ==> (#[trigger] written.buffers[l]).addr
                + written.buffers[l].len <= mem.len(),
        sector_count(written.buffers) <= u64::MAX,
        base.len() == sector_count(read.buffers),
        0 <= i < read.buffers.len(),
        read.buffers[i].addr + read.buffers[i].len <= later.len(),
        0 <= j < read.buffers[i].len / 512 * 512,
        sector_count(read.buffers.take(i)) + j / 512 < sector_count(written.buffers),
        forall|l: int|
            i < l < read.buffers.len() ==> !((#[trigger] read.buffers[l]).addr
                <= read.buffers[i].addr + j < read.buffers[l].addr + read.buffers[l].len),
        read.buffers[i].addr + j != read.status_addr,
    ensures
        request_memory(read, request_overlay(written, ov, mem), base, later)[read.buffers[i].addr
            + j] == gathered(mem, written.buffers)[sector_count(read.buffers.take(i)) * 512 + j],
{
    let now = request_overlay(written, ov, mem);
    let sectors = run_data(now, read.sector, base);
    let k = sector_count(read.buffers.take(i)) + j / 512;
    law_read_request_fills_buffers(later, read.buffers, sectors, i, j);
    law_read_request_sees_write_request(ov, mem, written.buffers, written.sector, base, k);
    lemma_gathered_len(mem, written.buffers);
    lemma_transfer_in_len(later, read.buffers, sectors);
    assert(sectors[k].len() == 512);
}

/// Whether two disks hold the same in the `n` sectors from `s` on, whatever the base
/// image holds.
pub open spec fn same_sectors(
    a: Map<u64, Seq<u8>>,
    b: Map<u64, Seq<u8>>,
    s: u64,
    n: int,
) -> bool {
    forall|k: int|
        0 <= k < n ==> {
            let sector = #[trigger] nth_sector(s, k);
            &&& a.contains_key(sector)
            &&& b.contains_key(sector)
            &&& a[sector] == b[sector]
        }
}

/// Whether no two buffers overlap, and none holds the byte at `status`.
pub open spec fn apart(buffers: Seq<GuestBuffer>, status: u64) -> bool {
    &&& forall|i: int, j: int|
        #![trigger buffers[i], buffers[j]]
        0 <= i < j < buffers.len() ==> {
            ||| buffers[i].addr + buffers[i].len <= buffers[j].addr
            ||| buffers[j].addr + buffers[j].len <= buffers[i].addr
        }
    &&& forall|i: int|
        0 <= i < buffers.len() ==> !((#[trigger] buffers[i]).addr <= status < buffers[i].addr
            + buffers[i].len)
}

proof fn lemma_count_prefix(buffers: Seq<GuestBuffer>, n: int)
    requires
        0 <= n < buffers.len(),
    ensures
        sector_count(buffers.take(n)) + buffers[n].len / 512 == sector_count(buffers.take(n + 1)),
        sector_count(buffers.take(n + 1)) <= sector_count(buffers),
    decreases buffers.len(),
{
    assert(buffers.take(n + 1).drop_last() =~= buffers.take(n));
    if n + 1 == buffers.len() {
        assert(buffers.take(n + 1) =~= buffers);
    } else {
        assert(buffers.drop_last().take(n + 1) =~= buffers.take(n + 1));
        assert(buffers.drop_last().take(n) =~= buffers.take(n));
        lemma_count_prefix(buffers.drop_last(), n);
    }
}

proof fn lemma_read_back_prefix(
    ov: Map<u64, Seq<u8>>,
    written: RequestModel,
    mem: Seq<u8>,
    read: RequestModel,
    base: Seq<Seq<u8>>,
    later: Seq<u8>,
    n: int,
)
    requires
        written.kind == RequestKind::Out,
        read.kind == RequestKind::In,
        read.sector == written.sector,
        all_within(written.buffers, mem.len() as int),
        all_within(read.buffers, later.len() as int),
        sector_count(written.buffers) <= u64::MAX,
        sector_count(read.buffers) == sector_count(written.buffers),
        base.len() == sector_count(read.buffers),
        apart(read.buffers, read.status_addr),
        0 <= n <= read.buffers.len(),
    ensures
        gathered(
            request_memory(read, request_overlay(written, ov, mem), base, later),
            read.buffers.take(n),
        ) == gathered(mem, written.buffers).take(512int * sector_count(read.buffers.take(n))),
    decreases n,
{
    let after = request_memory(read, request_overlay(written, ov, mem), base, later);
    let all = gathered(mem, written.buffers);
    let sectors = run_data(request_overlay(written, ov, mem), read.sector, base);
    lemma_gathered_len(mem, written.buffers);
    lemma_transfer_in_len(later, read.buffers, sectors);
    if n == 0 {
        assert(read.buffers.take(0) =~= seq![]);
        assert(all.take(0) =~= seq![]);
    } else {
        let i = n - 1;
        let b = read.buffers[i];
        let from = 512int * sector_count(read.buffers.take(i));
        let to = 512int * sector_count(read.buffers.take(n));
        lemma_read_back_prefix(ov, written, mem, read, base, later, i);
        lemma_count_prefix(read.buffers, i);
        assert(read.buffers.take(n).drop_last() =~= read.buffers.take(i));
        assert(read.buffers.take(n).last() == b);
        let piece = after.subrange(b.addr as int, b.addr + b.len / 512 * 512);
        assert forall|j: int| 0 <= j < piece.len() implies piece[j] == all[from + j] by {
            law_write_then_read(ov, written, mem, read, base, later, i, j);
        }
        assert(all.take(from) + piece =~= all.take(to));
    }
}

/// The buffers of a read request, joined, hold exactly what the buffers of a write
/// request to the same sectors held, joined, where no write to these sectors came
/// between the two. The base image has no part in it.
pub proof fn law_read_back(
    ov: Map<u64, Seq<u8>>,
    written: RequestModel,
    mem: Seq<u8>,
    now: Map<u64, Seq<u8>>,
    read: RequestModel,
    base: Seq<Seq<u8>>,
    later: Seq<u8>,
)
    requires
        written.kind == RequestKind::Out,
        read.kind == RequestKind::In,
        read.sector == written.sector,
        all_within(written.buffers, mem.len() as int),
        all_within(read.buffers, later.len() as int),
        sector_count(written.buffers) <= u64::MAX,
        sector_count(read.buffers) == sector_count(written.buffers),
        base.len() == sector_count(read.buffers),
        apart(read.buffers, read.status_addr),
        same_sectors(
            request_overlay(written, ov, mem),
            now,
            written.sector,
            sector_count(written.buffers) as int,
        ),
    ensures
        gathered(request_memory(read, now, base, later), read.buffers) == gathered(
            mem,
            written.buffers,
        ),
{
    let n = read.buffers.len() as int;
    let then = request_overlay(written, ov, mem);
    lemma_read_back_prefix(ov, written, mem, read, base, later, n);
    lemma_gathered_len(mem, written.buffers);
    assert(read.buffers.take(n) =~= read.buffers);
    let all = gathered(mem, written.buffers);
    assert(all.take(all.len() as int) =~= all);
    assert(run_data(now, read.sector, base) =~= run_data(then, read.sector, base)) by {
        assert forall|k: int| 0 <= k < base.len() implies sector_data(
            now,
            nth_sector(read.sector, k),
            base[k],
        ) == sector_data(then, nth_sector(read.sector, k), base[k]) by {
            assert(then.contains_key(nth_sector(written.sector, k)));
        }
    }
}

/// A write request puts every whole sector of its buffers on the disk, and a later
/// write elsewhere leaves them there.
pub proof fn law_written_sectors_stay(
    ov: Map<u64, Seq<u8>>,
    written: RequestModel,
    mem: Seq<u8>,
    other: u64,
    data: Seq<u8>,
)
    requires
        written.kind == RequestKind::Out,
        all_within(written.buffers, mem.len() as int),
        sector_count(written.buffers) <= u64::MAX,
        forall|k: int|
            0 <= k < sector_count(written.buffers) ==> sector_distance(
                other,
                #[trigger] nth_sector(written.sector, k),
            ) >= data.len() / 512,
    ensures
        ({
            let then = request_overlay(written, ov, mem);
            same_sectors(
                then,
                overlay_write(then, other, data),
                written.sector,
                sector_count(written.buffers) as int,
            )
        }),
{
    law_write_request_is_one_write(ov, mem, written.buffers, written.sector);
    lemma_gathered_len(mem, written.buffers);
    let then = request_overlay(written, ov, mem);
    assert forall|k: int| 0 <= k < sector_count(written.buffers) implies then.contains_key(
        #[trigger] nth_sector(written.sector, k),
    ) by {
        assert(sector_distance(written.sector, nth_sector(written.sector, k)) == k);
    }
}

/// A write request leaves guest memory as it was, but for its status.
pub proof fn law_write_request_keeps_memory(
    req: RequestModel,
    ov: Map<u64, Seq<u8>>,
    base: Seq<Seq<u8>>,
    mem: Seq<u8>,
    i: int,
)
    requires
        req.kind == RequestKind::Out,
        0 <= i < mem.len(),
    ensures
        request_memory(req, ov, base, mem)[i] == if i == req.status_addr {
            0
        } else {
            mem[i]
        },
{
}

/// Only a write request changes what the disk holds.
pub proof fn law_only_writes_change_the_disk(
    req: RequestModel,
    ov: Map<u64, Seq<u8>>,
    mem: Seq<u8>,
)
    requires
        req.kind != RequestKind::Out,
    ensures
        request_overlay(req, ov, mem) == ov,
{
}

/// A chain that was handed back stands in the used ring with its bytes, and the
/// ring's index has moved on by one.
#[verifier::rlimit(30)]
pub proof fn law_used_ring(q: VirtioQueueAddrs, mem: Seq<u8>, head: u16, bytes: u32)
    requires
        q.queue_size != 0,
        in_memory(mem, q.used_ring + 4, q.queue_size * 8),
    ensures
        ({
            let idx = guest16(mem, q.used_ring + 2);
            let after = push_used(q, mem, head, bytes);
            let entry = q.used_ring + 4 + (idx % q.queue_size) * 8;
            &&& guest16(after, q.used_ring + 2) == idx.wrapping_add(1)
            &&& guest32(after, entry) == head
            &&& guest32(after, entry + 4) == bytes
            &&& after.len() == mem.len()
            &&& forall|i: int|
                0 <= i < mem.len() && !(q.used_ring + 2 <= i < q.used_ring + 4) && !(entry <= i
                    < entry + 8) ==> #[trigger] after[i] == mem[i]
        }),
{
}

/// How many requests are left to handle before `avail_idx` in the available ring.
pub open spec fn pending(dev: VirtioBlkModel, avail_idx: u16) -> int {
    (avail_idx - dev.last_avail_idx) % 0x1_0000
}

/// The next request to be handled.
#[verifier::opaque]
pub open spec fn next_planned(dev: VirtioBlkModel, mem: Seq<u8>) -> RequestModel {
    request_model(mem, dev.overlay, dev.queue.desc_table, next_head(dev, mem))
}

/// What is read for a request from the base image, of which `base` gives each sector.
pub open spec fn image_read(req: RequestModel, base: spec_fn(u64) -> Seq<u8>) -> Seq<Seq<u8>> {
    Seq::new(
        req.base_sectors.len(),
        |k: int|
            match req.base_sectors[k] {
                Some(s) => base(s),
                None => seq![],
            },
    )
}

/// The device after the next request was handled.
pub open spec fn stepped_device(dev: VirtioBlkModel, mem: Seq<u8>) -> VirtioBlkModel {
    completed_device(dev, next_planned(dev, mem), mem)
}

/// The memory after the next request was handled.
#[verifier::opaque]
pub open spec fn stepped_memory(
    dev: VirtioBlkModel,
    mem: Seq<u8>,
    base: spec_fn(u64) -> Seq<u8>,
) -> Seq<u8> {
    let req = next_planned(dev, mem);
    completed_memory(dev, req, image_read(req, base), mem)
}

/// What the device and the memory become when the requests before `avail_idx` are
/// handled one after the other, over the base image `base`.
pub open spec fn drained(
    dev: VirtioBlkModel,
    mem: Seq<u8>,
    avail_idx: u16,
    base: spec_fn(u64) -> Seq<u8>,
) -> (VirtioBlkModel, Seq<u8>)
    decreases pending(dev, avail_idx),
{
    if dev.last_avail_idx == avail_idx {
        (dev, mem)
    } else {
        drained(stepped_device(dev, mem), stepped_memory(dev, mem, base), avail_idx, base)
    }
}

/// The requests that are handled when a queue is drained, in their order.
pub open spec fn drained_requests(
    dev: VirtioBlkModel,
    mem: Seq<u8>,
    avail_idx: u16,
    base: spec_fn(u64) -> Seq<u8>,
) -> Seq<RequestModel>
    decreases pending(dev, avail_idx),
{
    if dev.last_avail_idx == avail_idx {
        seq![]
    } else {
        seq![next_planned(dev, mem)] + drained_requests(
            stepped_device(dev, mem),
            stepped_memory(dev, mem, base),
            avail_idx,
            base,
        )
    }
}

/// Handling a request leaves one less to handle, so that a queue is drained after
/// finitely many.
pub proof fn law_one_request_less(
    dev: VirtioBlkModel,
    req: RequestModel,
    mem: Seq<u8>,
    avail_idx: u16,
)
    requires
        dev.last_avail_idx != avail_idx,
    ensures
        pending(completed_device(dev, req, mem), avail_idx) == pending(dev, avail_idx) - 1,
        pending(dev, avail_idx) > 0,
        pending(dev, avail_idx) == 1 <==> completed_device(dev, req, mem).last_avail_idx
            == avail_idx,
{
}

proof fn lemma_completed_len(
    dev: VirtioBlkModel,
    req: RequestModel,
    base: Seq<Seq<u8>>,
    mem: Seq<u8>,
)
    ensures
        completed_memory(dev, req, base, mem).len() == mem.len(),
{
    lemma_transfer_in_len(mem, req.buffers, run_data(dev.overlay, req.sector, base));
}

/// A drained queue has no request left, and draining it changes neither the size of
/// the memory nor anything of the device but the disk and its place in the ring.
pub proof fn law_drained(
    dev: VirtioBlkModel,
    mem: Seq<u8>,
    avail_idx: u16,
    base: spec_fn(u64) -> Seq<u8>,
)
    ensures
        ({
            let (after, after_mem) = drained(dev, mem, avail_idx, base);
            &&& after.last_avail_idx == avail_idx
            &&& after_mem.len() == mem.len()
            &&& after == VirtioBlkModel {
                overlay: after.overlay,
                last_avail_idx: avail_idx,
                ..dev
            }
        }),
    decreases pending(dev, avail_idx),
{
    if dev.last_avail_idx != avail_idx {
        reveal(stepped_memory);
        let req = next_planned(dev, mem);
        lemma_completed_len(dev, req, image_read(req, base), mem);
        law_drained(stepped_device(dev, mem), stepped_memory(dev, mem, base), avail_idx, base);
    }
}

/// Whether a request leaves the guest addresses in `lo..hi` alone: none of the buffers
/// that it reads into lies there, nor its status.
pub open spec fn clear_of(req: RequestModel, lo: int, hi: int) -> bool {
    &&& req.kind == RequestKind::In ==> forall|i: int|
        0 <= i < req.buffers.len() ==> (#[trigger] req.buffers[i]).addr + req.buffers[i].len <= lo
            || hi <= req.buffers[i].addr
    &&& req.kind != RequestKind::Short ==> !(lo <= req.status_addr < hi)
}

/// Whether a request leaves the entries of the available ring, and the index and the
/// entries of the used ring, alone.
pub open spec fn clear_of_rings(q: VirtioQueueAddrs, req: RequestModel) -> bool {
    &&& clear_of(req, q.avail_ring + 4, q.avail_ring + 4 + q.queue_size * 2)
    &&& clear_of(req, q.used_ring + 2, q.used_ring + 4 + q.queue_size * 8)
}

/// Whether the entries of the available ring lie apart from the index and the entries
/// of the used ring.
pub open spec fn rings_apart(q: VirtioQueueAddrs) -> bool {
    ||| q.avail_ring + 4 + q.queue_size * 2 <= q.used_ring + 2
    ||| q.used_ring + 4 + q.queue_size * 8 <= q.avail_ring + 4
}

/// The place in a ring that an index stands for, `k` after `idx`.
pub open spec fn ring_slot(q: VirtioQueueAddrs, idx: u16, k: int) -> int {
    (idx + k) % 0x1_0000 % (q.queue_size as int)
}

/// Where a place of the used ring lies.
pub open spec fn used_entry(q: VirtioQueueAddrs, slot: int) -> int {
    q.used_ring + 4 + slot * 8
}

/// Whether `n` indices from `idx` on stand for different places in a ring.
pub open spec fn slots_apart(q: VirtioQueueAddrs, idx: u16, n: int) -> bool {
    forall|i: int, j: int|
        0 <= i < j < n ==> #[trigger] ring_slot(q, idx, i) != #[trigger] ring_slot(q, idx, j)
}

/// A ring whose size divides the range of its index, as every power of two does, has
/// different places for as many indices as it is long.
pub proof fn law_slots_apart(q: VirtioQueueAddrs, idx: u16, n: int)
    requires
        q.queue_size != 0,
        0x1_0000int % (q.queue_size as int) == 0,
        n <= q.queue_size,
    ensures
        slots_apart(q, idx, n),
{
    let size = q.queue_size as int;
    let times = 0x1_0000int / size;
    assert(0x1_0000 == size * times) by {
        lemma_fundamental_div_mod(0x1_0000, size);
    }
    assert(times > 0) by (nonlinear_arith)
        requires
            0x1_0000 == size * times,
            size > 0,
    ;
    assert forall|i: int, j: int| 0 <= i < j < n implies #[trigger] ring_slot(q, idx, i)
        != #[trigger] ring_slot(q, idx, j) by {
        lemma_mod_mod(idx + i, size, times);
        lemma_mod_mod(idx + j, size, times);
        let (a, b) = ((idx + i) / size, (idx + j) / size);
        lemma_fundamental_div_mod(idx + i, size);
        lemma_fundamental_div_mod(idx + j, size);
        if (idx + i) % size == (idx + j) % size {
            assert(j - i == size * (b - a)) by (nonlinear_arith)
                requires
                    idx + i == size * a + (idx + i) % size,
                    idx + j == size * b + (idx + j) % size,
                    (idx + i) % size == (idx + j) % size,
            ;
            assert(false) by (nonlinear_arith)
                requires
                    0 < j - i < size,
                    j - i == size * (b - a),
            ;
        }
    }
}

/// Whether no request of a drain touches the rings.
pub open spec fn drain_clear(
    dev: VirtioBlkModel,
    mem: Seq<u8>,
    avail_idx: u16,
    base: spec_fn(u64) -> Seq<u8>,
) -> bool {
    let reqs = drained_requests(dev, mem, avail_idx, base);
    forall|k: int| 0 <= k < reqs.len() ==> clear_of_rings(dev.queue, #[trigger] reqs[k])
}

proof fn lemma_transfer_clear(
    mem: Seq<u8>,
    buffers: Seq<GuestBuffer>,
    sectors: Seq<Seq<u8>>,
    lo: int,
    hi: int,
    i: int,
)
    requires
        sectors.len() >= sector_count(buffers),
        forall|l: int|
            0 <= l < buffers.len() ==> (#[trigger] buffers[l]).addr + buffers[l].len <= lo || hi
                <= buffers[l].addr,
        lo <= i < hi,
        0 <= i < mem.len(),
    ensures
        transfer_in(mem, buffers, sectors)[i] == mem[i],
        transfer_in(mem, buffers, sectors).len() == mem.len(),
    decreases buffers.len(),
{
    if buffers.len() > 0 {
        let front = buffers.drop_last();
        assert forall|l: int| 0 <= l < front.len() implies (#[trigger] front[l]).addr
            + front[l].len <= lo || hi <= front[l].addr by {
            assert(front[l] == buffers[l]);
        }
        lemma_transfer_clear(mem, front, sectors, lo, hi, i);
        let b = buffers.last();
        assert(buffers[buffers.len() - 1] == b);
        assert(b.addr <= i ==> (i - b.addr) / 512 >= b.len / 512);
    }
}

proof fn lemma_request_clear(
    dev: VirtioBlkModel,
    mem: Seq<u8>,
    base: spec_fn(u64) -> Seq<u8>,
    lo: int,
    hi: int,
)
    requires
        clear_of(next_planned(dev, mem), lo, hi),
    ensures
        ({
            let req = next_planned(dev, mem);
            let after = request_memory(req, dev.overlay, image_read(req, base), mem);
            &&& after.len() == mem.len()
            &&& forall|i: int| lo <= i < hi && 0 <= i < mem.len() ==> #[trigger] after[i] == mem[i]
        }),
{
    reveal(next_planned);
    let req = next_planned(dev, mem);
    let sectors = run_data(dev.overlay, req.sector, image_read(req, base));
    let after = request_memory(req, dev.overlay, image_read(req, base), mem);
    lemma_transfer_in_len(mem, req.buffers, sectors);
    assert forall|i: int| lo <= i < hi && 0 <= i < mem.len() implies #[trigger] after[i]
        == mem[i] by {
        if req.kind == RequestKind::In {
            lemma_transfer_clear(mem, req.buffers, sectors, lo, hi, i);
        }
    }
}

proof fn lemma_planned_head(dev: VirtioBlkModel, mem: Seq<u8>)
    requires
        dev.queue.queue_size != 0,
    ensures
        next_planned(dev, mem).head == guest16(
            mem,
            dev.queue.avail_ring + 4 + ring_slot(dev.queue, dev.last_avail_idx, 0) * 2,
        ),
{
    reveal(next_planned);
    assert((dev.last_avail_idx % dev.queue.queue_size) as int == ring_slot(
        dev.queue,
        dev.last_avail_idx,
        0,
    ));
}

/// What handling one request does to the rings.
proof fn lemma_step_rings(dev: VirtioBlkModel, mem: Seq<u8>, base: spec_fn(u64) -> Seq<u8>)
    requires
        dev.queue.queue_size != 0,
        in_memory(mem, dev.queue.used_ring + 4, dev.queue.queue_size * 8),
        rings_apart(dev.queue),
        clear_of_rings(dev.queue, next_planned(dev, mem)),
    ensures
        ({
            let q = dev.queue;
            let req = next_planned(dev, mem);
            let after = stepped_memory(dev, mem, base);
            let idx = guest16(mem, q.used_ring + 2);
            let slot = ring_slot(q, idx, 0);
            &&& after.len() == mem.len()
            &&& guest16(after, q.used_ring + 2) == (idx + 1) % 0x1_0000
            &&& guest32(after, used_entry(q, slot)) == req.head
            &&& guest32(after, used_entry(q, slot) + 4) == request_bytes(req, mem.len() as int)
            &&& forall|e: int|
                0 <= e < q.queue_size && e != slot ==> #[trigger] guest32(after, used_entry(q, e))
                    == guest32(mem, used_entry(q, e)) && guest32(after, used_entry(q, e) + 4)
                    == guest32(mem, used_entry(q, e) + 4)
            &&& forall|e: int|
                0 <= e < q.queue_size ==> #[trigger] guest16(after, q.avail_ring + 4 + e * 2)
                    == guest16(mem, q.avail_ring + 4 + e * 2)
        }),
{
    reveal(stepped_memory);
    let q = dev.queue;
    let req = next_planned(dev, mem);
    let mid = request_memory(req, dev.overlay, image_read(req, base), mem);
    let bytes = request_bytes(req, mem.len() as int);
    let idx = guest16(mem, q.used_ring + 2);
    let slot = ring_slot(q, idx, 0);
    let after = stepped_memory(dev, mem, base);
    lemma_request_clear(dev, mem, base, q.used_ring + 2, q.used_ring + 4 + q.queue_size * 8);
    lemma_request_clear(dev, mem, base, q.avail_ring + 4, q.avail_ring + 4 + q.queue_size * 2);
    assert(guest16(mid, q.used_ring + 2) == idx);
    assert(after == push_used(q, mid, req.head, bytes));
    law_used_ring(q, mid, req.head, bytes);
    assert(0 <= slot < q.queue_size);
    assert forall|e: int| 0 <= e < q.queue_size && e != slot implies #[trigger] guest32(
        after,
        used_entry(q, e),
    ) == guest32(mem, used_entry(q, e)) && guest32(after, used_entry(q, e) + 4) == guest32(
        mem,
        used_entry(q, e) + 4,
    ) by {
        let at = used_entry(q, e);
        assert(at + 8 <= used_entry(q, slot) || used_entry(q, slot) + 8 <= at);
        assert(forall|i: int| at <= i < at + 8 ==> #[trigger] after[i] == mem[i]);
        lemma_same_word(after, mem, at);
        lemma_same_word(after, mem, at + 4);
    }
    assert forall|e: int| 0 <= e < q.queue_size implies #[trigger] guest16(
        after,
        q.avail_ring + 4 + e * 2,
    ) == guest16(mem, q.avail_ring + 4 + e * 2) by {
        let at = q.avail_ring + 4 + e * 2;
        assert(forall|i: int| at <= i < at + 2 && i < mem.len() ==> #[trigger] after[i] == mem[i]);
        if in_memory(mem, at, 2) {
            assert(after[at] == mem[at]);
            assert(after[at + 1] == mem[at + 1]);
        }
    }
}

proof fn lemma_same_word(a: Seq<u8>, b: Seq<u8>, at: int)
    requires
        a.len() == b.len(),
        0 <= at,
        at + 4 <= a.len(),
        forall|i: int| at <= i < at + 4 ==> #[trigger] a[i] == b[i],
    ensures
        guest32(a, at) == guest32(b, at),
{
    assert(a[at] == b[at]);
    assert(a[at + 1] == b[at + 1]);
    assert(a[at + 2] == b[at + 2]);
    assert(a[at + 3] == b[at + 3]);
}

/// What is known of a drain that has a request to handle: the request leaves the rings
/// alone, and so does the rest.
proof fn lemma_drain_step(
    dev: VirtioBlkModel,
    mem: Seq<u8>,
    avail_idx: u16,
    base: spec_fn(u64) -> Seq<u8>,
)
    requires
        dev.last_avail_idx != avail_idx,
        drain_clear(dev, mem, avail_idx, base),
    ensures
        clear_of_rings(dev.queue, next_planned(dev, mem)),
        drain_clear(stepped_device(dev, mem), stepped_memory(dev, mem, base), avail_idx, base),
        pending(stepped_device(dev, mem), avail_idx) == pending(dev, avail_idx) - 1,
{
    let reqs = drained_requests(dev, mem, avail_idx, base);
    let rest = drained_requests(
        stepped_device(dev, mem),
        stepped_memory(dev, mem, base),
        avail_idx,
        base,
    );
    assert(reqs[0] == next_planned(dev, mem));
    assert forall|k: int| 0 <= k < rest.len() implies clear_of_rings(
        dev.queue,
        #[trigger] rest[k],
    ) by {
        assert(reqs[k + 1] == rest[k]);
    }
}

proof fn lemma_wrapped_sum(idx: int, n: int)
    ensures
        ((idx + 1) % 0x1_0000 + n) % 0x1_0000 == (idx + n + 1) % 0x1_0000,
{
}

proof fn lemma_drain_index(
    dev: VirtioBlkModel,
    mem: Seq<u8>,
    avail_idx: u16,
    base: spec_fn(u64) -> Seq<u8>,
)
    requires
        dev.queue.queue_size != 0,
        in_memory(mem, dev.queue.used_ring + 4, dev.queue.queue_size * 8),
        rings_apart(dev.queue),
        drain_clear(dev, mem, avail_idx, base),
    ensures
        drained_requests(dev, mem, avail_idx, base).len() == pending(dev, avail_idx),
        guest16(drained(dev, mem, avail_idx, base).1, dev.queue.used_ring + 2) == (guest16(
            mem,
            dev.queue.used_ring + 2,
        ) + pending(dev, avail_idx)) % 0x1_0000,
    decreases pending(dev, avail_idx),
{
    if dev.last_avail_idx != avail_idx {
        lemma_drain_step(dev, mem, avail_idx, base);
        lemma_step_rings(dev, mem, base);
        lemma_wrapped_sum(
            guest16(mem, dev.queue.used_ring + 2) as int,
            pending(dev, avail_idx) - 1,
        );
        lemma_drain_index(
            stepped_device(dev, mem),
            stepped_memory(dev, mem, base),
            avail_idx,
            base,
        );
    }
}

proof fn lemma_next_slot(q: VirtioQueueAddrs, idx: u16, k: int)
    ensures
        ring_slot(q, idx.wrapping_add(1), k) == ring_slot(q, idx, k + 1),
        idx.wrapping_add(1) == (idx + 1) % 0x1_0000,
{
    assert((idx.wrapping_add(1) + k) % 0x1_0000 == (idx + k + 1) % 0x1_0000);
}

proof fn lemma_slots_rest(q: VirtioQueueAddrs, idx: u16, n: int)
    requires
        slots_apart(q, idx, n),
    ensures
        slots_apart(q, idx.wrapping_add(1), n - 1),
{
    assert forall|i: int, j: int| 0 <= i < j < n - 1 implies #[trigger] ring_slot(
        q,
        idx.wrapping_add(1),
        i,
    ) != #[trigger] ring_slot(q, idx.wrapping_add(1), j) by {
        lemma_next_slot(q, idx, i);
        lemma_next_slot(q, idx, j);
        assert(ring_slot(q, idx, i + 1) != ring_slot(q, idx, j + 1));
    }
}

proof fn lemma_drain_keeps_entry(
    dev: VirtioBlkModel,
    mem: Seq<u8>,
    avail_idx: u16,
    base: spec_fn(u64) -> Seq<u8>,
    e: int,
)
    requires
        dev.queue.queue_size != 0,
        in_memory(mem, dev.queue.used_ring + 4, dev.queue.queue_size * 8),
        rings_apart(dev.queue),
        drain_clear(dev, mem, avail_idx, base),
        0 <= e < dev.queue.queue_size,
        forall|k: int|
            0 <= k < pending(dev, avail_idx) ==> e != #[trigger] ring_slot(
                dev.queue,
                guest16(mem, dev.queue.used_ring + 2),
                k,
            ),
    ensures
        ({
            let after = drained(dev, mem, avail_idx, base).1;
            let at = used_entry(dev.queue, e);
            &&& guest32(after, at) == guest32(mem, at)
            &&& guest32(after, at + 4) == guest32(mem, at + 4)
        }),
    decreases pending(dev, avail_idx),
{
    if dev.last_avail_idx != avail_idx {
        let q = dev.queue;
        let idx = guest16(mem, q.used_ring + 2);
        let next_dev = stepped_device(dev, mem);
        let next_mem = stepped_memory(dev, mem, base);
        lemma_drain_step(dev, mem, avail_idx, base);
        lemma_step_rings(dev, mem, base);
        assert(e != ring_slot(q, idx, 0));
        assert(guest32(next_mem, used_entry(q, e)) == guest32(mem, used_entry(q, e)));
        lemma_next_slot(q, idx, 0);
        assert forall|k: int| 0 <= k < pending(next_dev, avail_idx) implies e
            != #[trigger] ring_slot(q, guest16(next_mem, q.used_ring + 2), k) by {
            lemma_next_slot(q, idx, k);
            assert(e != ring_slot(q, idx, k + 1));
        }
        lemma_drain_keeps_entry(next_dev, next_mem, avail_idx, base, e);
    }
}

proof fn lemma_drain_entry(
    dev: VirtioBlkModel,
    mem: Seq<u8>,
    avail_idx: u16,
    base: spec_fn(u64) -> Seq<u8>,
    k: int,
)
    requires
        dev.queue.queue_size != 0,
        in_memory(mem, dev.queue.used_ring + 4, dev.queue.queue_size * 8),
        rings_apart(dev.queue),
        drain_clear(dev, mem, avail_idx, base),
        slots_apart(
            dev.queue,
            guest16(mem, dev.queue.used_ring + 2),
            pending(dev, avail_idx),
        ),
        0 <= k < pending(dev, avail_idx),
    ensures
        ({
            let q = dev.queue;
            let req = drained_requests(dev, mem, avail_idx, base)[k];
            let after = drained(dev, mem, avail_idx, base).1;
            let at = used_entry(q, ring_slot(q, guest16(mem, q.used_ring + 2), k));
            &&& req.head == guest16(
                mem,
                q.avail_ring + 4 + ring_slot(q, dev.last_avail_idx, k) * 2,
            )
            &&& guest32(after, at) == req.head
            &&& guest32(after, at + 4) == request_bytes(req, mem.len() as int)
        }),
    decreases pending(dev, avail_idx),
{
    let q = dev.queue;
    let idx = guest16(mem, q.used_ring + 2);
    let n = pending(dev, avail_idx);
    let next_dev = stepped_device(dev, mem);
    let next_mem = stepped_memory(dev, mem, base);
    lemma_drain_step(dev, mem, avail_idx, base);
    lemma_step_rings(dev, mem, base);
    lemma_next_slot(q, idx, 0);
    let rest = drained_requests(next_dev, next_mem, avail_idx, base);
    if k == 0 {
        lemma_planned_head(dev, mem);
        let e = ring_slot(q, idx, 0);
        assert forall|j: int| 0 <= j < n - 1 implies e != #[trigger] ring_slot(
            q,
            guest16(next_mem, q.used_ring + 2),
            j,
        ) by {
            lemma_next_slot(q, idx, j);
            assert(ring_slot(q, idx, 0) != ring_slot(q, idx, j + 1));
        }
        lemma_drain_keeps_entry(next_dev, next_mem, avail_idx, base, e);
    } else {
        lemma_slots_rest(q, idx, n);
        lemma_next_slot(q, idx, k - 1);
        lemma_next_slot(q, dev.last_avail_idx, k - 1);
        lemma_drain_index(next_dev, next_mem, avail_idx, base);
        lemma_drain_entry(next_dev, next_mem, avail_idx, base, k - 1);
        assert(drained_requests(dev, mem, avail_idx, base)[k] == rest[k - 1]);
        let slot = ring_slot(q, dev.last_avail_idx, k);
        assert(0 <= slot < q.queue_size);
        assert(guest16(next_mem, q.avail_ring + 4 + slot * 2) == guest16(
            mem,
            q.avail_ring + 4 + slot * 2,
        ));
    }
}

/// When a queue is drained, the used index moves on by the number of requests, and
/// the entry for each of them, in their order, holds its head as the driver made it
/// available and the number of bytes that the device reports for it. The used ring
/// lies within the memory and apart from the available ring, no request touches
/// either, and the requests have different places in the used ring.
pub proof fn law_drained_used_ring(
    dev: VirtioBlkModel,
    mem: Seq<u8>,
    avail_idx: u16,
    base: spec_fn(u64) -> Seq<u8>,
)
    requires
        dev.queue.queue_size != 0,
        in_memory(mem, dev.queue.used_ring + 4, dev.queue.queue_size * 8),
        rings_apart(dev.queue),
        drain_clear(dev, mem, avail_idx, base),
        slots_apart(
            dev.queue,
            guest16(mem, dev.queue.used_ring + 2),
            pending(dev, avail_idx),
        ),
    ensures
        ({
            let q = dev.queue;
            let n = pending(dev, avail_idx);
            let idx = guest16(mem, q.used_ring + 2);
            let reqs = drained_requests(dev, mem, avail_idx, base);
            let after = drained(dev, mem, avail_idx, base).1;
            &&& reqs.len() == n
            &&& guest16(after, q.used_ring + 2) == (idx + n) % 0x1_0000
            &&& forall|k: int|
                0 <= k < n ==> {
                    let req = #[trigger] reqs[k];
                    let at = used_entry(q, ring_slot(q, idx, k));
                    &&& req.head == guest16(
                        mem,
                        q.avail_ring + 4 + ring_slot(q, dev.last_avail_idx, k) * 2,
                    )
                    &&& guest32(after, at) == req.head
                    &&& guest32(after, at + 4) == request_bytes(req, mem.len() as int)
                }
        }),
{
    lemma_drain_index(dev, mem, avail_idx, base);
    assert forall|k: int| 0 <= k < pending(dev, avail_idx) implies {
        let q = dev.queue;
        let req = #[trigger] drained_requests(dev, mem, avail_idx, base)[k];
        let after = drained(dev, mem, avail_idx, base).1;
        let at = used_entry(q, ring_slot(q, guest16(mem, q.used_ring + 2), k));
        &&& req.head == guest16(mem, q.avail_ring + 4 + ring_slot(q, dev.last_avail_idx, k) * 2)
        &&& guest32(after, at) == req.head
        &&& guest32(after, at + 4) == request_bytes(req, mem.len() as int)
    } by {
        lemma_drain_entry(dev, mem, avail_idx, base, k);
    }
}

/// A notification without a new request does nothing.
pub proof fn law_notify_without_request(dev: VirtioBlkModel, data: Seq<u8>, mem: Seq<u8>)
    requires
        guest16(mem, dev.queue.avail_ring + 2) == dev.last_avail_idx,
    ensures
        write_effect(dev, MMIO_QUEUE_NOTIFY as int, data, mem) == MmioEffect::Nothing,
        after_write(dev, MMIO_QUEUE_NOTIFY as int, data) == dev,
{
}

/// A device that was set up from guest memory does not repeat the requests that
/// were made before the snapshot.
pub proof fn law_snapshot_requests_not_repeated(
    dev: VirtioBlkModel,
    data: Seq<u8>,
    mem: Seq<u8>,
)
    requires
        in_memory(mem, dev.queue.avail_ring + 2, 2),
    ensures
        write_effect(resumed(dev, mem), MMIO_QUEUE_NOTIFY as int, data, mem)
            == MmioEffect::Nothing,
{
}

/// Whether a driver whose available index went from `old_idx` to `new_idx` notifies
/// a device that asked to hear of the request after `event`.
pub open spec fn notifies(event: u16, new_idx: u16, old_idx: u16) -> bool {
    (new_idx - event - 1) % 0x1_0000 < (new_idx - old_idx) % 0x1_0000
}

/// Once a queue is finished, the driver notifies the device of the very next
/// request.
pub proof fn law_next_request_notifies(q: VirtioQueueAddrs, mem: Seq<u8>, avail_idx: u16)
    requires
        in_memory(mem, q.used_ring + 4 + q.queue_size * 8, 2),
    ensures
        ({
            let at = q.used_ring + 4 + q.queue_size * 8;
            let event = guest16(event_asked(q, mem, avail_idx), at);
            &&& event == avail_idx
            &&& notifies(event, avail_idx.wrapping_add(1), avail_idx)
        }),
{
}

/// An acknowledgement clears the bits that it names and no others. One that names
/// all that are set lowers the interrupt line.
pub proof fn law_acknowledge(dev: VirtioBlkModel, data: Seq<u8>, mem: Seq<u8>)
    requires
        written_value(data) is Some,
    ensures
        ({
            let val = written_value(data).unwrap();
            let now = after_write(dev, MMIO_INTERRUPT_ACK as int, data).interrupt_status;
            let lowered = write_effect(dev, MMIO_INTERRUPT_ACK as int, data, mem)
                == MmioEffect::LowerIrq { gsi: dev.queue.gsi };
            &&& now & val == 0
            &&& now | (dev.interrupt_status & val) == dev.interrupt_status
            &&& lowered == (dev.interrupt_status & val == dev.interrupt_status)
        }),
{
    let val = written_value(data).unwrap();
    let s = dev.interrupt_status;
    assert((s & !val) & val == 0) by (bit_vector);
    assert((s & !val) | (s & val) == s) by (bit_vector);
    assert((s & !val == 0) == (s & val == s)) by (bit_vector);
}

proof fn lemma_bytes32(v: u32)
    ensures
        le32(bytes32(v), 0) == v,
{
}

/// The status register reads back what was written to it.
pub proof fn law_status_reads_back(dev: VirtioBlkModel, data: Seq<u8>)
    requires
        written_value(data) is Some,
    ensures
        le32(register_bytes(after_write(dev, MMIO_STATUS as int, data), MMIO_STATUS as int, 4), 0)
            == written_value(data).unwrap(),
{
    let val = written_value(data).unwrap();
    assert(register_bytes(after_write(dev, MMIO_STATUS as int, data), MMIO_STATUS as int, 4)
        == bytes32(val));
    lemma_bytes32(val);
}

/// Once a queue is finished, the interrupt register shows that buffers were used,
/// until that bit is acknowledged.
pub proof fn law_interrupt_until_acknowledged(dev: VirtioBlkModel, data: Seq<u8>)
    requires
        written_value(data) is Some,
    ensures
        ({
            let raised = interrupted(dev);
            let val = written_value(data).unwrap();
            let now = after_write(raised, MMIO_INTERRUPT_ACK as int, data);
            let shown = le32(
                register_bytes(raised, MMIO_INTERRUPT_STATUS as int, 4),
                0,
            );
            let shown_after = le32(register_bytes(now, MMIO_INTERRUPT_STATUS as int, 4), 0);
            &&& shown & 1 == 1
            &&& (shown_after & 1 == 1) == (val & 1 == 0)
        }),
{
    let s = dev.interrupt_status;
    let val = written_value(data).unwrap();
    assert((s | 1) & 1 == 1) by (bit_vector);
    assert((((s | 1) & !val) & 1 == 1) == (val & 1 == 0)) by (bit_vector);
    lemma_bytes32(s | 1);
    lemma_bytes32((s | 1) & !val);
}

/// The capacity of the disk is read in two halves of four bytes.
#[verifier::rlimit(30)]
pub proof fn law_capacity_readable(dev: VirtioBlkModel)
    ensures
        le32(register_bytes(dev, MMIO_CONFIG as int, 4), 0) == dev.capacity_sectors
            % 0x1_0000_0000,
        le32(register_bytes(dev, MMIO_CONFIG + 4, 4), 0) == dev.capacity_sectors / 0x1_0000_0000,
{
    assert(forall|b: u8| #[trigger] (b | 0) == b) by (bit_vector);
    let low = register_bytes(dev, MMIO_CONFIG as int, 4);
    let high = register_bytes(dev, MMIO_CONFIG + 4, 4);
    assert(low =~= bytes32((dev.capacity_sectors % 0x1_0000_0000) as u32));
    assert(high =~= bytes32((dev.capacity_sectors / 0x1_0000_0000) as u32));
    lemma_bytes32((dev.capacity_sectors % 0x1_0000_0000) as u32);
    lemma_bytes32((dev.capacity_sectors / 0x1_0000_0000) as u32);
}

} // verus!

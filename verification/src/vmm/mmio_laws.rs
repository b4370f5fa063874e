//! The registers of the block device, the used ring and guest memory, byte by byte.

use vstd::prelude::*;

use crate::vmm::guest_memory::{guest16, guest32, guest64, put16, put32};
use crate::vmm::layout_laws::{
    enc16, enc32, enc64, holds, law_le16, law_le32, law_le64, lemma_holds_within, lemma_lens,
};
use crate::vmm::request_laws::{
    disk_sector, law_read_carried_out, law_write_carried_out, not_overwritten, request_in,
    sectors_before,
};
use crate::vmm::virtio_blk::{
    after_write, byte_of64, bytes32, completed_device, completed_memory, data_read, event_asked,
    fresh_device, fresh_disk, image_offset, in_register_page, interrupted, next_head,
    register_bytes, request_bytes, request_memory, request_model, resumed, run_data,
    write_effect, written_value, MmioEffect, RequestModel, VirtioBlkModel, VirtioQueueAddrs,
    VirtqDesc,
};
use crate::vmm::virtio_blk_laws::{image_read, lemma_transfer_in_len};

verus! {

/// The bytes of a number in guest memory are read as that number.
pub proof fn law_guest_read_back(mem: Seq<u8>, a: int, v16: u16, v32: u32, v64: u64)
    ensures
        holds(mem, a, enc16(v16)) ==> guest16(mem, a) == v16,
        holds(mem, a, enc32(v32)) ==> guest32(mem, a) == v32,
        holds(mem, a, enc64(v64)) ==> guest64(mem, a) == v64,
{
    lemma_lens();
    if holds(mem, a, enc16(v16)) {
        lemma_holds_within(mem, a, enc16(v16));
        law_le16(mem, a, v16);
    }
    if holds(mem, a, enc32(v32)) {
        lemma_holds_within(mem, a, enc32(v32));
        law_le32(mem, a, v32);
    }
    if holds(mem, a, enc64(v64)) {
        lemma_holds_within(mem, a, enc64(v64));
        law_le64(mem, a, v64);
    }
}

/// A number that does not lie within guest memory is read as zero, and is not written.
pub proof fn law_outside_memory(mem: Seq<u8>, a: int, v16: u16, v32: u32)
    requires
        a >= 0,
    ensures
        a + 2 > mem.len() ==> guest16(mem, a) == 0 && put16(mem, a, v16) == mem,
        a + 4 > mem.len() ==> guest32(mem, a) == 0 && put32(mem, a, v32) == mem,
        a + 8 > mem.len() ==> guest64(mem, a) == 0,
{
}

/// A number that is written to guest memory stands there as its bytes.
pub proof fn law_guest_written(mem: Seq<u8>, a: int, v16: u16, v32: u32)
    ensures
        0 <= a && a + 2 <= mem.len() ==> holds(put16(mem, a, v16), a, enc16(v16)),
        0 <= a && a + 4 <= mem.len() ==> holds(put32(mem, a, v32), a, enc32(v32)),
{
    reveal(holds);
    reveal(enc16);
    reveal(enc32);
    if 0 <= a && a + 2 <= mem.len() {
        let after = put16(mem, a, v16);
        assert(after[a + 0] == enc16(v16)[0]);
        assert(after[a + 1] == enc16(v16)[1]);
    }
    if 0 <= a && a + 4 <= mem.len() {
        let after = put32(mem, a, v32);
        assert(after[a + 0] == enc32(v32)[0]);
        assert(after[a + 1] == enc32(v32)[1]);
        assert(after[a + 2] == enc32(v32)[2]);
        assert(after[a + 3] == enc32(v32)[3]);
    }
}

proof fn lemma_bytes32(v: u32)
    ensures
        bytes32(v) == enc32(v),
{
    reveal(enc32);
    assert(bytes32(v) =~= enc32(v));
}

/// What a guest reads from the registers: "virt", version 2, a block device, "QEMU",
/// the size of its queue, that the queue is ready, the interrupt status, and the device
/// status.
pub proof fn law_registers(dev: VirtioBlkModel, width: int)
    ensures
        register_bytes(dev, 0x000, width) == seq![0x76u8, 0x69, 0x72, 0x74],
        register_bytes(dev, 0x004, width) == enc32(2),
        register_bytes(dev, 0x008, width) == enc32(2),
        register_bytes(dev, 0x00C, width) == seq![0x51u8, 0x45, 0x4D, 0x55],
        register_bytes(dev, 0x034, width) == enc32(dev.queue.queue_size as u32),
        register_bytes(dev, 0x044, width) == enc32(1),
        register_bytes(dev, 0x060, width) == enc32(dev.interrupt_status),
        register_bytes(dev, 0x070, width) == enc32(dev.status),
{
    lemma_bytes32(0x74726976);
    lemma_bytes32(2);
    lemma_bytes32(0x554D4551);
    lemma_bytes32(dev.queue.queue_size as u32);
    lemma_bytes32(1);
    lemma_bytes32(dev.interrupt_status);
    lemma_bytes32(dev.status);
    reveal(enc32);
    assert(enc32(0x74726976) =~= seq![0x76u8, 0x69, 0x72, 0x74]);
    assert(enc32(0x554D4551) =~= seq![0x51u8, 0x45, 0x4D, 0x55]);
}

/// Every other register below the configuration space is zero: no feature is offered.
pub proof fn law_other_registers(dev: VirtioBlkModel, offset: int, width: int)
    requires
        offset < 0x100 || offset >= 0x108,
        offset != 0x000,
        offset != 0x004,
        offset != 0x008,
        offset != 0x00C,
        offset != 0x034,
        offset != 0x044,
        offset != 0x060,
        offset != 0x070,
    ensures
        register_bytes(dev, offset, width) == enc32(0),
{
    lemma_bytes32(0);
}

proof fn lemma_byte_of64(v: u64, k: int)
    requires
        0 <= k < 8,
    ensures
        byte_of64(v, k) == enc64(v)[k],
{
    reveal(enc64);
    reveal(enc32);
}

/// The configuration space is the capacity in sectors: a read of up to four bytes gives
/// that part of its eight bytes.
pub proof fn law_configuration(dev: VirtioBlkModel, off: int, width: int, k: int)
    requires
        0 <= off,
        1 <= width <= 4,
        off + width <= 8,
        0 <= k < width,
    ensures
        register_bytes(dev, 0x100 + off, width)[k] == enc64(dev.capacity_sectors)[off + k],
{
    lemma_byte_of64(dev.capacity_sectors, off + k);
    let b = byte_of64(dev.capacity_sectors, off + k);
    assert(b | 0 == b) by (bit_vector);
}

/// What a guest writes is the number whose one, two or four bytes it hands over. Any
/// other number of bytes is no number.
pub proof fn law_written_value(b: u8, v16: u16, v32: u32, data: Seq<u8>)
    ensures
        written_value(seq![b]) == Some(b as u32),
        written_value(enc16(v16)) == Some(v16 as u32),
        written_value(enc32(v32)) == Some(v32),
        data.len() != 1 && data.len() != 2 && data.len() != 4 ==> written_value(data) is None,
{
    lemma_lens();
    assert(holds(enc16(v16), 0, enc16(v16)) && holds(enc32(v32), 0, enc32(v32))) by {
        reveal(holds);
    }
    law_le16(enc16(v16), 0, v16);
    law_le32(enc32(v32), 0, v32);
}

/// A write to the device status replaces it, a write to the interrupt acknowledgement
/// clears the bits that it has set, and no other write changes the device.
pub proof fn law_register_writes(dev: VirtioBlkModel, v: u32, offset: int)
    ensures
        after_write(dev, 0x070, enc32(v)) == (VirtioBlkModel { status: v, ..dev }),
        after_write(dev, 0x064, enc32(v)) == (VirtioBlkModel {
            interrupt_status: dev.interrupt_status & !v,
            ..dev
        }),
        offset != 0x070 && offset != 0x064 ==> after_write(dev, offset, enc32(v)) == dev,
{
    law_written_value(0, 0, v, seq![]);
}

/// A write to the queue notification asks for the requests up to the index of the
/// available ring, where there are any. The interrupt line is lowered by the
/// acknowledgement of the last bit. Nothing else is asked for.
pub proof fn law_write_effects(
    dev: VirtioBlkModel,
    v: u32,
    offset: int,
    mem: Seq<u8>,
    avail_idx: u16,
)
    requires
        holds(mem, dev.queue.avail_ring + 2, enc16(avail_idx)),
    ensures
        write_effect(dev, 0x050, enc32(v), mem) == if avail_idx != dev.last_avail_idx {
            MmioEffect::Drain { avail_idx }
        } else {
            MmioEffect::Nothing
        },
        write_effect(dev, 0x064, enc32(v), mem) == if dev.interrupt_status & !v == 0 {
            MmioEffect::LowerIrq { gsi: dev.queue.gsi }
        } else {
            MmioEffect::Nothing
        },
        offset != 0x050 && offset != 0x064 ==> write_effect(dev, offset, enc32(v), mem)
            == MmioEffect::Nothing,
{
    law_written_value(0, 0, v, seq![]);
    law_guest_read_back(mem, dev.queue.avail_ring + 2, avail_idx, 0, 0);
}

/// The next request is the one that the next entry of the available ring names. The
/// entries follow a header of four bytes and are used in turn.
pub proof fn law_next_request(dev: VirtioBlkModel, mem: Seq<u8>, head: u16)
    requires
        dev.queue.queue_size > 0,
        holds(
            mem,
            dev.queue.avail_ring + 4 + 2 * (dev.last_avail_idx as int
                % dev.queue.queue_size as int),
            enc16(head),
        ),
    ensures
        next_head(dev, mem) == head,
{
    law_guest_read_back(
        mem,
        dev.queue.avail_ring + 4 + 2 * (dev.last_avail_idx as int % dev.queue.queue_size as int),
        head,
        0,
        0,
    );
}

/// A request that was carried out is handed back in the next entry of the used ring:
/// its head and the bytes that were written, 32 bits each. The index of the ring moves
/// on, and no other byte changes but those of the request itself.
pub proof fn law_handed_back(
    dev: VirtioBlkModel,
    req: RequestModel,
    base: Seq<Seq<u8>>,
    mem: Seq<u8>,
    idx: u16,
)
    requires
        dev.queue.queue_size > 0,
        holds(
            request_memory(req, dev.overlay, base, mem),
            dev.queue.used_ring + 2,
            enc16(idx),
        ),
        dev.queue.used_ring + 4 + 8 * dev.queue.queue_size <= request_memory(
            req,
            dev.overlay,
            base,
            mem,
        ).len(),
    ensures
        ({
            let mid = request_memory(req, dev.overlay, base, mem);
            let after = completed_memory(dev, req, base, mem);
            let entry = dev.queue.used_ring + 4 + 8 * (idx as int % dev.queue.queue_size as int);
            let next = if idx == 0xFFFF {
                0u16
            } else {
                (idx + 1) as u16
            };
            &&& holds(after, entry, enc32(req.head as u32))
            &&& holds(after, entry + 4, enc32(request_bytes(req, mem.len() as int)))
            &&& holds(after, dev.queue.used_ring + 2, enc16(next))
            &&& after.len() == mid.len()
            &&& forall|a: int|
                0 <= a < mid.len() && !(entry <= a < entry + 8) && !(dev.queue.used_ring + 2 <= a
                    < dev.queue.used_ring + 4) ==> #[trigger] after[a] == mid[a]
        }),
{
    let q = dev.queue;
    let mid = request_memory(req, dev.overlay, base, mem);
    let bytes = request_bytes(req, mem.len() as int);
    law_guest_read_back(mid, q.used_ring + 2, idx, 0, 0);
    let slot = idx as int % q.queue_size as int;
    let entry = q.used_ring + 4 + 8 * slot;
    assert(0 <= slot < q.queue_size);
    let one = put32(mid, entry, req.head as u32);
    let two = put32(one, entry + 4, bytes);
    let next = idx.wrapping_add(1);
    let after = put16(two, q.used_ring + 2, next);
    assert(after == completed_memory(dev, req, base, mem));
    law_guest_written(mid, entry, 0, req.head as u32);
    law_guest_written(one, entry + 4, 0, bytes);
    law_guest_written(two, q.used_ring + 2, next, 0);
    lemma_lens();
    assert(holds(after, entry, enc32(req.head as u32)) && holds(after, entry + 4, enc32(bytes)))
        by {
        reveal(holds);
        let h = enc32(req.head as u32);
        let b = enc32(bytes);
        assert forall|i: int| 0 <= i < h.len() implies #[trigger] after[entry + i] == h[i] by {
            assert(one[entry + i] == h[i]);
        }
        assert forall|i: int| 0 <= i < b.len() implies #[trigger] after[entry + 4 + i] == b[i] by {
            assert(two[entry + 4 + i] == b[i]);
        }
    }
}

/// Handing a request back changes nothing outside of the used ring.
pub proof fn law_handed_back_elsewhere(
    dev: VirtioBlkModel,
    req: RequestModel,
    base: Seq<Seq<u8>>,
    mem: Seq<u8>,
    a: int,
)
    requires
        dev.queue.queue_size > 0,
        !(dev.queue.used_ring <= a < dev.queue.used_ring + 4 + 8 * dev.queue.queue_size),
        0 <= a < request_memory(req, dev.overlay, base, mem).len(),
    ensures
        completed_memory(dev, req, base, mem).len() == request_memory(
            req,
            dev.overlay,
            base,
            mem,
        ).len(),
        completed_memory(dev, req, base, mem)[a] == request_memory(
            req,
            dev.overlay,
            base,
            mem,
        )[a],
{
    let q = dev.queue;
    let mid = request_memory(req, dev.overlay, base, mem);
    let idx = guest16(mid, q.used_ring + 2);
    let slot = idx as int % q.queue_size as int;
    assert(0 <= slot < q.queue_size);
    let entry = q.used_ring + 4 + slot * 8;
    assert(entry + 8 <= q.used_ring + 4 + 8 * q.queue_size);
}

/// Once a request to read is completed, every whole sector of every descriptor between
/// the first and the last that is not empty and ends within the memory holds its sector
/// of the disk, where the used ring does not lie over it.
pub proof fn law_read_completed(
    dev: VirtioBlkModel,
    mem: Seq<u8>,
    image: spec_fn(u64) -> Seq<u8>,
    idx: Seq<u16>,
    ds: Seq<VirtqDesc>,
    sector: u64,
    i: int,
    j: int,
)
    requires
        dev.queue.queue_size > 0,
        request_in(mem, dev.queue.desc_table, idx, ds, 0, sector),
        1 <= i < ds.len() - 1,
        ds[i].len != 0,
        ds[i].addr + ds[i].len <= mem.len(),
        0 <= j < ds[i].len / 512 * 512,
        not_overwritten(ds, mem.len() as int, i, ds[i].addr + j),
        !(dev.queue.used_ring <= ds[i].addr + j < dev.queue.used_ring + 4 + 8
            * dev.queue.queue_size),
    ensures
        ({
            let req = request_model(mem, dev.overlay, dev.queue.desc_table, idx[0]);
            let after = completed_memory(dev, req, image_read(req, image), mem);
            let s = sector + sectors_before(ds, mem.len() as int, i) + j / 512;
            let data = disk_sector(dev.overlay, image, s);
            j % 512 < data.len() ==> after[ds[i].addr + j] == data[j % 512]
        }),
{
    let req = request_model(mem, dev.overlay, dev.queue.desc_table, idx[0]);
    let base = image_read(req, image);
    law_read_carried_out(
        mem,
        dev.overlay,
        image,
        dev.queue.desc_table,
        idx,
        ds,
        sector,
        i,
        j,
    );
    lemma_transfer_in_len(mem, req.buffers, run_data(dev.overlay, req.sector, base));
    law_handed_back_elsewhere(dev, req, base, mem, ds[i].addr + j);
}

/// Once a request to write is completed, the disk holds every whole sector of every
/// descriptor between the first and the last that is not empty and ends within the
/// memory.
pub proof fn law_write_completed(
    dev: VirtioBlkModel,
    mem: Seq<u8>,
    image: spec_fn(u64) -> Seq<u8>,
    idx: Seq<u16>,
    ds: Seq<VirtqDesc>,
    sector: u64,
    i: int,
    q: int,
)
    requires
        request_in(mem, dev.queue.desc_table, idx, ds, 1, sector),
        1 <= i < ds.len() - 1,
        ds[i].len != 0,
        ds[i].addr + ds[i].len <= mem.len(),
        0 <= q < ds[i].len / 512,
    ensures
        ({
            let req = request_model(mem, dev.overlay, dev.queue.desc_table, idx[0]);
            let after = completed_device(dev, req, mem);
            let s = sector + sectors_before(ds, mem.len() as int, i) + q;
            disk_sector(after.overlay, image, s) == mem.subrange(
                ds[i].addr + 512 * q,
                ds[i].addr + 512 * q + 512,
            )
        }),
{
    law_write_carried_out(
        mem,
        dev.overlay,
        image,
        dev.queue.desc_table,
        idx,
        ds,
        sector,
        i,
        q,
    );
}

/// A new device has the size of its base image in whole sectors, shows the status of one
/// that the guest has set up, and holds what the base image holds.
pub proof fn law_fresh_device(
    queue: VirtioQueueAddrs,
    base_size: u64,
    image: spec_fn(u64) -> Seq<u8>,
    s: u64,
)
    ensures
        ({
            let dev = fresh_device(queue, base_size);
            &&& 512 * dev.capacity_sectors <= base_size < 512 * dev.capacity_sectors + 512
            &&& register_bytes(dev, 0x070, 4) == enc32(0xF)
            &&& register_bytes(dev, 0x060, 4) == enc32(0)
            &&& disk_sector(dev.overlay, image, s as int) == image(s)
            &&& dev.queue == queue
            &&& dev.last_avail_idx == 0
            &&& fresh_disk(base_size).sectors == dev.overlay
            &&& fresh_disk(base_size).capacity_sectors == dev.capacity_sectors
        }),
{
    law_registers(fresh_device(queue, base_size), 4);
}

/// A device goes on from the index that the available ring has reached, where the ring
/// lies in the memory. Nothing else of the device changes.
pub proof fn law_resumed(dev: VirtioBlkModel, mem: Seq<u8>, idx: u16)
    ensures
        holds(mem, dev.queue.avail_ring + 2, enc16(idx)) ==> resumed(dev, mem) == (
        VirtioBlkModel { last_avail_idx: idx, ..dev }),
        dev.queue.avail_ring + 4 > mem.len() ==> resumed(dev, mem) == dev,
{
    if holds(mem, dev.queue.avail_ring + 2, enc16(idx)) {
        lemma_lens();
        lemma_holds_within(mem, dev.queue.avail_ring + 2, enc16(idx));
        law_le16(mem, dev.queue.avail_ring + 2, idx);
    }
}

/// The registers of a device fill one page.
pub proof fn law_register_page(dev: VirtioBlkModel, offset: int)
    ensures
        in_register_page(dev, dev.queue.mmio_base + offset) <==> 0 <= offset < 0x1000,
{
}

/// A read fills in the register, as much of it as there is room for. What is left of a
/// longer buffer stays as it is.
pub proof fn law_data_read(dev: VirtioBlkModel, offset: int, data: Seq<u8>, i: int)
    requires
        0 <= i < data.len(),
    ensures
        data_read(dev, offset, data).len() == data.len(),
        data_read(dev, offset, data)[i] == if i < 4 {
            register_bytes(dev, offset, data.len() as int)[i]
        } else {
            data[i]
        },
{
}

/// Behind the used ring the guest finds the index that it is to notify the device of;
/// no other byte changes.
pub proof fn law_event_asked(q: VirtioQueueAddrs, mem: Seq<u8>, avail_idx: u16)
    requires
        q.used_ring + 4 + 8 * q.queue_size + 2 <= mem.len(),
    ensures
        ({
            let after = event_asked(q, mem, avail_idx);
            let at = q.used_ring + 4 + 8 * q.queue_size;
            &&& holds(after, at, enc16(avail_idx))
            &&& after.len() == mem.len()
            &&& forall|a: int|
                0 <= a < mem.len() && !(at <= a < at + 2) ==> #[trigger] after[a] == mem[a]
        }),
{
    law_guest_written(mem, q.used_ring + 4 + 8 * q.queue_size, avail_idx, 0);
}

/// An interrupt sets the bit for used buffers, and no other.
pub proof fn law_interrupted(dev: VirtioBlkModel)
    ensures
        ({
            let after = interrupted(dev);
            &&& after.interrupt_status & 1 == 1
            &&& after.interrupt_status >> 1 == dev.interrupt_status >> 1
            &&& after == (VirtioBlkModel { interrupt_status: after.interrupt_status, ..dev })
        }),
{
    let s = dev.interrupt_status;
    assert((s | 1) & 1 == 1) by (bit_vector);
    assert((s | 1) >> 1 == s >> 1) by (bit_vector);
}

/// A sector of the base image stands behind those before it, 512 bytes each.
pub proof fn law_image_offset(s: u64)
    requires
        s < 0x80_0000_0000_0000,
    ensures
        image_offset(s) == 512 * s,
{
}

/// Handling a request moves on to the next one.
pub proof fn law_moves_on(dev: VirtioBlkModel, req: RequestModel, mem: Seq<u8>)
    ensures
        ({
            let after = completed_device(dev, req, mem);
            &&& after.last_avail_idx == (dev.last_avail_idx + 1) % 0x1_0000
            &&& after.queue == dev.queue
            &&& after.capacity_sectors == dev.capacity_sectors
            &&& after.interrupt_status == dev.interrupt_status
            &&& after.status == dev.status
        }),
{
}

/// Of a read of more than four bytes, those behind the fourth are folded onto the first
/// four, bit by bit.
pub proof fn law_configuration_folded(dev: VirtioBlkModel, off: int, width: int, k: int)
    requires
        0 <= off,
        4 < width,
        off + 4 <= 8,
        0 <= k < 4,
    ensures
        register_bytes(dev, 0x100 + off, width)[k] == enc64(dev.capacity_sectors)[off + k] | if k
            + 4 < width && off + k + 4 < 8 {
            enc64(dev.capacity_sectors)[off + k + 4]
        } else {
            0
        },
{
    lemma_byte_of64(dev.capacity_sectors, off + k);
    if off + k + 4 < 8 {
        lemma_byte_of64(dev.capacity_sectors, off + k + 4);
    }
}

} // verus!

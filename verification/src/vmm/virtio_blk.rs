//! A virtio block device behind MMIO registers, over a copy-on-write overlay.
//!
//! Every fork of a VM has an overlay of its own on top of a base image that all
//! forks share and none writes. The device never touches the base image itself:
//! handling a request starts with a plan that names the sectors to be read from
//! the image, and the request is completed with what was read. The same goes for
//! the interrupt line, which a call asks to be raised or lowered.

use std::collections::HashMap;

use vstd::arithmetic::div_mod::lemma_add_mod_noop;
use vstd::prelude::*;
use vstd::slice::{slice_subrange, slice_to_vec};

use crate::bytes::{le16, le32, r16, r32};
use crate::vmm::guest_memory::{
    byte_of, fits, guest16, guest32, guest64, in_memory, put16, put32, read_u16, read_u32,
    read_u64, write_u16, write_u32,
};

verus! {

broadcast use vstd::std_specs::hash::group_hash_axioms;

/// Bytes in a sector.
pub const SECTOR_SIZE: u64 = 512;

/// Where a virtqueue lies in guest memory, and how its device is reached.
#[derive(Clone, Copy, Debug, PartialEq, Eq)]
pub struct VirtioQueueAddrs {
    pub desc_table: u64,
    pub avail_ring: u64,
    pub used_ring: u64,
    pub queue_size: u16,
    pub mmio_base: u64,
    pub gsi: u32,
}

/// A descriptor of a virtqueue.
#[derive(Clone, Copy, Debug, PartialEq, Eq)]
pub struct VirtqDesc {
    pub addr: u64,
    pub len: u32,
    pub flags: u16,
    pub next: u16,
}

/// The flag of a descriptor that another one follows.
pub const VIRTQ_DESC_F_NEXT: u16 = 1;

/// Descriptor `idx` of the table at `table`.
pub open spec fn desc_at(mem: Seq<u8>, table: u64, idx: u16) -> VirtqDesc {
    let a = table + idx * 16;
    VirtqDesc {
        addr: guest64(mem, a),
        len: guest32(mem, a + 8),
        flags: guest16(mem, a + 12),
        next: guest16(mem, a + 14),
    }
}

/// Whether another descriptor follows this one.
pub open spec fn has_next(d: VirtqDesc) -> bool {
    d.flags & VIRTQ_DESC_F_NEXT != 0
}

/// The chain of descriptors from `idx` on, when `n` of it came before. No more
/// than 257 are followed, so that a chain that runs in a circle ends too.
pub open spec fn desc_chain(mem: Seq<u8>, table: u64, idx: u16, n: int) -> Seq<VirtqDesc>
    decreases 257 - n,
{
    let d = desc_at(mem, table, idx);
    if has_next(d) && n < 256 {
        seq![d] + desc_chain(mem, table, d.next, n + 1)
    } else {
        seq![d]
    }
}

/// Reads descriptor `idx` of the table at `desc_table`.
pub fn read_desc(mem: &[u8], desc_table: u64, idx: u16) -> (r: VirtqDesc)
    ensures
        r == desc_at(mem@, desc_table, idx),
{
    assert(mem.len() <= usize::MAX);
    let addr: u64 = desc_table.saturating_add(idx as u64 * 16);
    VirtqDesc {
        addr: read_u64(mem, addr),
        len: read_u32(mem, addr.saturating_add(8)),
        flags: read_u16(mem, addr.saturating_add(12)),
        next: read_u16(mem, addr.saturating_add(14)),
    }
}

/// Reads the chain of descriptors that starts at `first_desc`.
pub fn read_chain(mem: &[u8], desc_table: u64, first_desc: u16) -> (r: Vec<VirtqDesc>)
    ensures
        r@ == desc_chain(mem@, desc_table, first_desc, 0),
        1 <= r@.len() <= 257,
{
    let mut descs: Vec<VirtqDesc> = Vec::new();
    let mut idx: u16 = first_desc;
    loop
        invariant_except_break
            descs@ + desc_chain(mem@, desc_table, idx, descs@.len() as int) == desc_chain(
                mem@,
                desc_table,
                first_desc,
                0,
            ),
            descs@.len() <= 256,
        ensures
            descs@ == desc_chain(mem@, desc_table, first_desc, 0),
            1 <= descs@.len() <= 257,
        decreases 257 - descs@.len(),
    {
        let ghost before = descs@;
        let desc = read_desc(mem, desc_table, idx);
        let more: bool = desc.flags & VIRTQ_DESC_F_NEXT != 0;
        descs.push(desc);
        if !more || descs.len() > 256 {
            assert(before + seq![desc] =~= descs@);
            break;
        }
        proof {
            let rest = desc_chain(mem@, desc_table, desc.next, descs@.len() as int);
            assert(before + (seq![desc] + rest) =~= descs@ + rest);
        }
        idx = desc.next;
    }
    descs
}

/// The sector `i` after `s`. Sector numbers wrap around.
pub open spec fn nth_sector(s: u64, i: int) -> u64 {
    ((s + i) % 0x1_0000_0000_0000_0000) as u64
}

/// How many sectors after `s` the sector `k` is.
pub open spec fn sector_distance(s: u64, k: u64) -> int {
    if s <= k {
        k - s
    } else {
        k - s + 0x1_0000_0000_0000_0000
    }
}

/// The overlay after `data` was written from sector `s` on. What is left behind the
/// last whole sector is not written.
pub open spec fn overlay_write(ov: Map<u64, Seq<u8>>, s: u64, data: Seq<u8>) -> Map<u64, Seq<u8>> {
    Map::new(
        |k: u64| ov.contains_key(k) || sector_distance(s, k) < data.len() / 512,
        |k: u64|
            {
                let i = sector_distance(s, k);
                if i < data.len() / 512 {
                    data.subrange(i * 512, i * 512 + 512)
                } else {
                    ov[k]
                }
            },
    )
}

/// What sector `s` holds: what the overlay has of it, else what came from the base
/// image.
pub open spec fn sector_data(ov: Map<u64, Seq<u8>>, s: u64, base: Seq<u8>) -> Seq<u8> {
    if ov.contains_key(s) {
        ov[s]
    } else {
        base
    }
}

/// What the sectors from `s` on hold, where `base` came from the base image.
pub open spec fn run_data(ov: Map<u64, Seq<u8>>, s: u64, base: Seq<Seq<u8>>) -> Seq<Seq<u8>> {
    Seq::new(base.len(), |k: int| sector_data(ov, nth_sector(s, k), base[k]))
}

/// The sectors among the `n` from `s` on that have to be read from the base image.
pub open spec fn base_run(ov: Map<u64, Seq<u8>>, s: u64, n: int) -> Seq<Option<u64>> {
    Seq::new(
        n as nat,
        |k: int|
            if ov.contains_key(nth_sector(s, k)) {
                None
            } else {
                Some(nth_sector(s, k))
            },
    )
}

/// The memory after `data`, at most a sector of it, was stored at `a`.
pub open spec fn put_sector(mem: Seq<u8>, a: int, data: Seq<u8>) -> Seq<u8> {
    Seq::new(
        mem.len(),
        |i: int|
            if a <= i < a + 512 && i - a < data.len() {
                data[i - a]
            } else {
                mem[i]
            },
    )
}

/// The memory after the given sectors were stored one after the other from `a` on.
/// Where a sector has less than 512 bytes, the rest of its place is unchanged.
pub open spec fn put_sectors(mem: Seq<u8>, a: int, sectors: Seq<Seq<u8>>) -> Seq<u8> {
    Seq::new(
        mem.len(),
        |i: int|
            {
                let k = (i - a) / 512;
                let j = (i - a) % 512;
                if a <= i && k < sectors.len() && j < sectors[k].len() {
                    sectors[k][j]
                } else {
                    mem[i]
                }
            },
    )
}

/// The contents of byte vectors.
pub open spec fn contents(v: Seq<Vec<u8>>) -> Seq<Seq<u8>> {
    Seq::new(v.len(), |i: int| v[i]@)
}

/// The byte offset of a sector in the base image, in 64 bits.
pub open spec fn image_offset(sector: u64) -> u64 {
    ((sector * 512) % 0x1_0000_0000_0000_0000) as u64
}

/// The byte offset of a sector in the base image.
pub fn base_offset(sector: u64) -> (r: u64)
    ensures
        r == image_offset(sector),
{
    sector.wrapping_mul(SECTOR_SIZE)
}

fn store_sector(mem: &mut [u8], addr: usize, data: &Vec<u8>)
    requires
        addr + 512 <= old(mem)@.len(),
    ensures
        final(mem)@ == put_sector(old(mem)@, addr as int, data@),
{
    let mem_len: usize = mem.len();
    let n: usize = if data.len() < 512 {
        data.len()
    } else {
        512
    };
    let mut i: usize = 0;
    while i < n
        invariant
            i <= n <= data@.len(),
            n <= 512,
            mem_len == mem@.len() == old(mem)@.len(),
            addr + 512 <= mem_len,
            forall|j: int|
                0 <= j < mem@.len() ==> #[trigger] mem@[j] == if addr <= j < addr + i {
                    data@[j - addr]
                } else {
                    old(mem)@[j]
                },
        decreases n - i,
    {
        mem[addr + i] = data[i];
        i += 1;
    }
    assert(mem@ =~= put_sector(old(mem)@, addr as int, data@));
}

/// A disk as one fork of a VM sees it: the sectors that the fork has written, over
/// a base image of fixed size.
pub struct OverlayBlockDevice {
    capacity_sectors: u64,
    overlay: HashMap<u64, Vec<u8>>,
}

/// Whether every sector of an overlay has its 512 bytes.
pub open spec fn whole_sectors(ov: Map<u64, Seq<u8>>) -> bool {
    forall|s: u64| #[trigger] ov.contains_key(s) ==> ov[s].len() == 512
}

/// What a disk is made of: its size in sectors, and what the fork has written of
/// them.
#[verifier::ext_equal]
pub struct DiskModel {
    pub capacity_sectors: u64,
    pub sectors: Map<u64, Seq<u8>>,
}

impl View for OverlayBlockDevice {
    type V = DiskModel;

    closed spec fn view(&self) -> DiskModel {
        DiskModel {
            capacity_sectors: self.capacity_sectors,
            sectors: self.overlay@.map_values(|v: Vec<u8>| v@),
        }
    }
}

/// A disk over a base image of `base_size` bytes, nothing written to it yet.
pub open spec fn fresh_disk(base_size: u64) -> DiskModel {
    DiskModel { capacity_sectors: base_size / 512, sectors: Map::empty() }
}

impl OverlayBlockDevice {
    /// Every sector in the overlay is whole.
    pub open spec fn wf(&self) -> bool {
        whole_sectors(self@.sectors)
    }

    /// A disk over a base image of `base_size` bytes, nothing written to it yet.
    pub fn new(base_size: u64) -> (r: Self)
        ensures
            r.wf(),
            r@ == fresh_disk(base_size),
    {
        let r = OverlayBlockDevice {
            capacity_sectors: base_size / SECTOR_SIZE,
            overlay: HashMap::new(),
        };
        assert(r@.sectors =~= Map::<u64, Seq<u8>>::empty());
        r
    }

    /// Which of the `n` sectors from `sector` on have to be read from the base
    /// image.
    pub fn base_sectors(&self, sector: u64, n: usize) -> (r: Vec<Option<u64>>)
        ensures
            r@ == base_run(self@.sectors, sector, n as int),
    {
        let mut r: Vec<Option<u64>> = Vec::new();
        let mut i: usize = 0;
        while i < n
            invariant
                i <= n,
                r@ == base_run(self@.sectors, sector, i as int),
            decreases n - i,
        {
            let s: u64 = sector.wrapping_add(i as u64);
            assert(s == nth_sector(sector, i as int));
            if self.overlay.contains_key(&s) {
                r.push(None);
            } else {
                r.push(Some(s));
            }
            assert(r@ =~= base_run(self@.sectors, sector, i + 1));
            i += 1;
        }
        r
    }

    /// Reads the whole sectors that fit `len` bytes, from `sector` on, to `addr` in
    /// the memory. The entries of `base` from `first` on are what was read of these
    /// sectors from the base image; only those of sectors that the overlay does not
    /// have are used.
    pub fn read_sectors(
        &self,
        sector: u64,
        mem: &mut [u8],
        addr: usize,
        len: usize,
        base: &Vec<Vec<u8>>,
        first: usize,
    )
        requires
            addr + len <= old(mem)@.len(),
            first + len / 512 <= base@.len(),
        ensures
            final(mem)@ == put_sectors(
                old(mem)@,
                addr as int,
                run_data(
                    self@.sectors,
                    sector,
                    contents(base@).subrange(first as int, first + len / 512),
                ),
            ),
    {
        let mem_len: usize = mem.len();
        let base_len: usize = base.len();
        let num_sectors: usize = len / 512;
        let ghost start = mem@;
        let ghost part = contents(base@).subrange(first as int, first + num_sectors);
        let ghost run = run_data(self@.sectors, sector, part);
        let mut i: usize = 0;
        assert(mem@ =~= put_sectors(start, addr as int, run.take(0)));
        while i < num_sectors
            invariant
                i <= num_sectors,
                num_sectors == len / 512,
                mem_len == mem@.len() == start.len(),
                base_len == base@.len(),
                addr + len <= mem_len,
                first + num_sectors <= base_len,
                part == contents(base@).subrange(first as int, first + num_sectors),
                run == run_data(self@.sectors, sector, part),
                mem@ == put_sectors(start, addr as int, run.take(i as int)),
            decreases num_sectors - i,
        {
            let ghost before = mem@;
            let s: u64 = sector.wrapping_add(i as u64);
            let off: usize = addr + i * 512;
            assert(s == nth_sector(sector, i as int));
            match self.overlay.get(&s) {
                Some(data) => {
                    store_sector(mem, off, data);
                },
                None => {
                    store_sector(mem, off, &base[first + i]);
                },
            }
            assert(mem@ == put_sector(before, off as int, run[i as int]));
            assert(mem@ =~= put_sectors(start, addr as int, run.take(i + 1)));
            i += 1;
        }
        assert(run.take(num_sectors as int) =~= run);
    }

    /// Writes the whole sectors of `data` from `sector` on.
    pub fn write_sectors(&mut self, sector: u64, data: &[u8])
        requires
            old(self).wf(),
        ensures
            final(self).wf(),
            final(self)@ == (DiskModel {
                sectors: overlay_write(old(self)@.sectors, sector, data@),
                ..old(self)@
            }),
    {
        let num_sectors: usize = data.len() / 512;
        let ghost start = self@.sectors;
        let mut i: usize = 0;
        assert(self@.sectors =~= overlay_write(start, sector, data@.take(0)));
        while i < num_sectors
            invariant
                i <= num_sectors,
                num_sectors == data@.len() / 512,
                num_sectors * 512 <= usize::MAX,
                self.wf(),
                self@.sectors == overlay_write(start, sector, data@.take(i * 512)),
                self@.capacity_sectors == old(self)@.capacity_sectors,
            decreases num_sectors - i,
        {
            let ghost before = self@.sectors;
            let s: u64 = sector.wrapping_add(i as u64);
            let off: usize = i * 512;
            let ghost bytes = data@.subrange(off as int, off + 512);
            let chunk: Vec<u8> = slice_to_vec(slice_subrange(data, off, off + 512));
            assert(chunk@ =~= bytes);
            self.overlay.insert(s, chunk);
            proof {
                assert(s == nth_sector(sector, i as int));
                assert(self@.sectors =~= before.insert(s, bytes));
                let now = overlay_write(start, sector, data@.take((i + 1) * 512));
                assert forall|k: u64| sector_distance(sector, k) == i <==> k == s by {}
                assert(now.dom() =~= self@.sectors.dom());
                assert forall|k: u64| self@.sectors.contains_key(k) implies #[trigger] self@.sectors[k] == now[k] by {
                    let j = sector_distance(sector, k);
                    if j < i {
                        assert(data@.take(i * 512).subrange(j * 512, j * 512 + 512) =~= data@.take(
                            (i + 1) * 512,
                        ).subrange(j * 512, j * 512 + 512));
                    }
                    if k == s {
                        assert(data@.take((i + 1) * 512).subrange(j * 512, j * 512 + 512)
                            =~= bytes);
                    }
                }
                assert(self@.sectors =~= now);
            }
            i += 1;
        }
        proof {
            let all = data@.take(num_sectors * 512);
            let now = overlay_write(start, sector, data@);
            assert(now.dom() =~= self@.sectors.dom());
            assert forall|k: u64| self@.sectors.contains_key(k) implies #[trigger] self@.sectors[k] == now[k] by {
                let j = sector_distance(sector, k);
                if j < num_sectors {
                    assert(all.subrange(j * 512, j * 512 + 512) =~= data@.subrange(
                        j * 512,
                        j * 512 + 512,
                    ));
                }
            }
            assert(self@.sectors =~= now);
        }
    }
}

/// A piece of guest memory.
#[derive(Clone, Copy, Debug, PartialEq, Eq)]
pub struct GuestBuffer {
    pub addr: u64,
    pub len: u32,
}

/// Whether a descriptor gives a buffer that is not empty and lies within a memory
/// of `mem_len` bytes.
pub open spec fn usable(d: VirtqDesc, mem_len: int) -> bool {
    d.len > 0 && d.addr + d.len <= mem_len
}

/// The usable buffers among the descriptors.
pub open spec fn buffers_of(descs: Seq<VirtqDesc>, mem_len: int) -> Seq<GuestBuffer>
    decreases descs.len(),
{
    if descs.len() == 0 {
        seq![]
    } else if usable(descs.last(), mem_len) {
        buffers_of(descs.drop_last(), mem_len).push(
            GuestBuffer { addr: descs.last().addr, len: descs.last().len },
        )
    } else {
        buffers_of(descs.drop_last(), mem_len)
    }
}

/// The number of whole sectors that the buffers take.
pub open spec fn sector_count(buffers: Seq<GuestBuffer>) -> nat
    decreases buffers.len(),
{
    if buffers.len() == 0 {
        0
    } else {
        sector_count(buffers.drop_last()) + (buffers.last().len / 512) as nat
    }
}

/// The number of bytes in the buffers.
pub open spec fn byte_count(buffers: Seq<GuestBuffer>) -> nat
    decreases buffers.len(),
{
    if buffers.len() == 0 {
        0
    } else {
        byte_count(buffers.drop_last()) + buffers.last().len as nat
    }
}

/// Whether every buffer lies within a memory of `mem_len` bytes.
pub open spec fn all_within(buffers: Seq<GuestBuffer>, mem_len: int) -> bool {
    forall|i: int|
        0 <= i < buffers.len() ==> (#[trigger] buffers[i]).addr + buffers[i].len <= mem_len
}

/// What a request asks for.
#[derive(Clone, Copy, Debug, PartialEq, Eq, Structural)]
pub enum RequestKind {
    /// Nothing: its chain has no room for both a header and a status.
    Short,
    /// To read from the disk.
    In,
    /// To write to the disk.
    Out,
    /// A flush, or a type that is not known. Nothing is transferred.
    Other,
}

/// A request, as far as it can be handled before the base image is read.
#[derive(Debug, PartialEq, Eq)]
pub struct BlkRequest {
    /// The first descriptor of its chain.
    pub head: u16,
    pub kind: RequestKind,
    /// The sector that it starts at.
    pub sector: u64,
    pub buffers: Vec<GuestBuffer>,
    /// Where its status goes.
    pub status_addr: u64,
    /// For each sector to be read, its number where it has to come from the base
    /// image.
    pub base_sectors: Vec<Option<u64>>,
}

/// What `BlkRequest` holds, with its vectors as sequences.
#[verifier::ext_equal]
pub struct RequestModel {
    pub head: u16,
    pub kind: RequestKind,
    pub sector: u64,
    pub buffers: Seq<GuestBuffer>,
    pub status_addr: u64,
    pub base_sectors: Seq<Option<u64>>,
}

impl View for BlkRequest {
    type V = RequestModel;

    open spec fn view(&self) -> RequestModel {
        RequestModel {
            head: self.head,
            kind: self.kind,
            sector: self.sector,
            buffers: self.buffers@,
            status_addr: self.status_addr,
            base_sectors: self.base_sectors@,
        }
    }
}

/// The kind of a request, by the type in its header.
pub open spec fn kind_of(req_type: u32) -> RequestKind {
    if req_type == 0 {
        RequestKind::In
    } else if req_type == 1 {
        RequestKind::Out
    } else {
        RequestKind::Other
    }
}

/// The request whose chain starts at descriptor `head`: a header, buffers, and a
/// byte for the status.
pub open spec fn request_model(
    mem: Seq<u8>,
    ov: Map<u64, Seq<u8>>,
    table: u64,
    head: u16,
) -> RequestModel {
    let descs = desc_chain(mem, table, head, 0);
    if descs.len() < 2 {
        RequestModel {
            head,
            kind: RequestKind::Short,
            sector: 0,
            buffers: seq![],
            status_addr: 0,
            base_sectors: seq![],
        }
    } else {
        let kind = kind_of(guest32(mem, descs[0].addr as int));
        let sector = guest64(mem, descs[0].addr + 8);
        let buffers = if kind == RequestKind::Other {
            seq![]
        } else {
            buffers_of(descs.subrange(1, descs.len() - 1), mem.len() as int)
        };
        RequestModel {
            head,
            kind,
            sector,
            buffers,
            status_addr: descs.last().addr,
            base_sectors: if kind == RequestKind::In {
                base_run(ov, sector, sector_count(buffers) as int)
            } else {
                seq![]
            },
        }
    }
}

/// The memory after the given sectors were read into the buffers in turn.
pub open spec fn transfer_in(
    mem: Seq<u8>,
    buffers: Seq<GuestBuffer>,
    sectors: Seq<Seq<u8>>,
) -> Seq<u8>
    decreases buffers.len(),
{
    if buffers.len() == 0 {
        mem
    } else {
        put_sectors(
            transfer_in(mem, buffers.drop_last(), sectors),
            buffers.last().addr as int,
            sectors.subrange(
                sector_count(buffers.drop_last()) as int,
                sector_count(buffers) as int,
            ),
        )
    }
}

/// The overlay after the buffers were written in turn from sector `s` on.
pub open spec fn transfer_out(
    ov: Map<u64, Seq<u8>>,
    mem: Seq<u8>,
    buffers: Seq<GuestBuffer>,
    s: u64,
) -> Map<u64, Seq<u8>>
    decreases buffers.len(),
{
    if buffers.len() == 0 {
        ov
    } else {
        let b = buffers.last();
        overlay_write(
            transfer_out(ov, mem, buffers.drop_last(), s),
            nth_sector(s, sector_count(buffers.drop_last()) as int),
            mem.subrange(b.addr as int, b.addr + b.len),
        )
    }
}

/// The memory after the status of success was stored.
pub open spec fn put_status(mem: Seq<u8>, addr: u64) -> Seq<u8> {
    if addr < mem.len() {
        mem.update(addr as int, 0)
    } else {
        mem
    }
}

/// The memory after a request was carried out; `base` is what was read from the
/// base image for it.
pub open spec fn request_memory(
    req: RequestModel,
    ov: Map<u64, Seq<u8>>,
    base: Seq<Seq<u8>>,
    mem: Seq<u8>,
) -> Seq<u8> {
    match req.kind {
        RequestKind::Short => mem,
        RequestKind::In => put_status(
            transfer_in(mem, req.buffers, run_data(ov, req.sector, base)),
            req.status_addr,
        ),
        _ => put_status(mem, req.status_addr),
    }
}

/// The overlay after a request was carried out.
pub open spec fn request_overlay(
    req: RequestModel,
    ov: Map<u64, Seq<u8>>,
    mem: Seq<u8>,
) -> Map<u64, Seq<u8>> {
    if req.kind == RequestKind::Out {
        transfer_out(ov, mem, req.buffers, req.sector)
    } else {
        ov
    }
}

/// The number of bytes that the device reports for a request: those of the buffers
/// that it reads or writes, and the status, in 32 bits.
pub open spec fn request_bytes(req: RequestModel, mem_len: int) -> u32 {
    let data: int = match req.kind {
        RequestKind::In | RequestKind::Out => byte_count(req.buffers) as int,
        _ => 0,
    };
    let status: int = if req.kind != RequestKind::Short && req.status_addr < mem_len {
        1
    } else {
        0
    };
    ((data + status) % 0x1_0000_0000) as u32
}

/// The memory after a chain was handed back to the guest: the next entry of the
/// used ring names it and the bytes that were written, and the ring's index moves
/// on.
pub open spec fn push_used(q: VirtioQueueAddrs, mem: Seq<u8>, head: u16, bytes: u32) -> Seq<u8> {
    let used_idx = guest16(mem, q.used_ring + 2);
    let entry = q.used_ring + 4 + (used_idx % q.queue_size) * 8;
    let filled = put32(put32(mem, entry, head as u32), entry + 4, bytes);
    put16(filled, q.used_ring + 2, used_idx.wrapping_add(1))
}

/// What a block device is made of.
#[verifier::ext_equal]
pub struct VirtioBlkModel {
    pub queue: VirtioQueueAddrs,
    pub capacity_sectors: u64,
    pub overlay: Map<u64, Seq<u8>>,
    pub last_avail_idx: u16,
    pub interrupt_status: u32,
    pub status: u32,
}

/// A virtio block device as the guest sees it through its registers.
pub struct VirtioBlk {
    queue: VirtioQueueAddrs,
    device: OverlayBlockDevice,
    last_avail_idx: u16,
    interrupt_status: u32,
    status: u32,
}

impl View for VirtioBlk {
    type V = VirtioBlkModel;

    closed spec fn view(&self) -> VirtioBlkModel {
        VirtioBlkModel {
            queue: self.queue,
            capacity_sectors: self.device@.capacity_sectors,
            overlay: self.device@.sectors,
            last_avail_idx: self.last_avail_idx,
            interrupt_status: self.interrupt_status,
            status: self.status,
        }
    }
}

/// What a write to a register asks for beyond the device.
#[derive(Clone, Copy, Debug, PartialEq, Eq, Structural)]
pub enum MmioEffect {
    /// Nothing.
    Nothing,
    /// To handle the requests before `avail_idx` in the available ring.
    Drain { avail_idx: u16 },
    /// To lower the interrupt line.
    LowerIrq { gsi: u32 },
}

pub const MMIO_MAGIC: u64 = 0x000;

pub const MMIO_VERSION: u64 = 0x004;

pub const MMIO_DEVICE_ID: u64 = 0x008;

pub const MMIO_VENDOR_ID: u64 = 0x00C;

pub const MMIO_DEVICE_FEATURES: u64 = 0x010;

pub const MMIO_QUEUE_NUM_MAX: u64 = 0x034;

pub const MMIO_QUEUE_READY: u64 = 0x044;

pub const MMIO_QUEUE_NOTIFY: u64 = 0x050;

pub const MMIO_INTERRUPT_STATUS: u64 = 0x060;

pub const MMIO_INTERRUPT_ACK: u64 = 0x064;

pub const MMIO_STATUS: u64 = 0x070;

pub const MMIO_CONFIG_GENERATION: u64 = 0x0FC;

pub const MMIO_CONFIG: u64 = 0x100;

/// Byte `k` of a 64-bit number, least significant first.
pub open spec fn byte_of64(v: u64, k: int) -> u8 {
    if k < 4 {
        byte_of((v % 0x1_0000_0000) as int, k)
    } else {
        byte_of((v / 0x1_0000_0000) as int, k - 4)
    }
}

/// The four bytes of a number, least significant first.
pub open spec fn bytes32(v: u32) -> Seq<u8> {
    Seq::new(4, |i: int| byte_of(v as int, i))
}

/// What a read of `width` bytes at offset `off` of the configuration space gives:
/// the bytes of the capacity from there on. Bytes behind the fourth are folded onto
/// the first four.
pub open spec fn config_bytes(capacity: u64, off: int, width: int) -> Seq<u8> {
    let n = if width < 8 - off {
        width
    } else {
        8 - off
    };
    Seq::new(
        4,
        |i: int|
            (if i < n {
                byte_of64(capacity, off + i)
            } else {
                0
            }) | (if i + 4 < n {
                byte_of64(capacity, off + i + 4)
            } else {
                0
            }),
    )
}

/// The four bytes that a read of `width` bytes at the register `offset` gives.
pub open spec fn register_bytes(dev: VirtioBlkModel, offset: int, width: int) -> Seq<u8> {
    if offset == MMIO_MAGIC {
        bytes32(0x74726976)
    } else if offset == MMIO_VERSION || offset == MMIO_DEVICE_ID {
        bytes32(2)
    } else if offset == MMIO_VENDOR_ID {
        bytes32(0x554D4551)
    } else if offset == MMIO_QUEUE_NUM_MAX {
        bytes32(dev.queue.queue_size as u32)
    } else if offset == MMIO_QUEUE_READY {
        bytes32(1)
    } else if offset == MMIO_INTERRUPT_STATUS {
        bytes32(dev.interrupt_status)
    } else if offset == MMIO_STATUS {
        bytes32(dev.status)
    } else if MMIO_CONFIG <= offset < MMIO_CONFIG + 8 {
        config_bytes(dev.capacity_sectors, offset - MMIO_CONFIG, width)
    } else {
        bytes32(0)
    }
}

/// What a read at the register `offset` makes of a buffer. No more than four bytes are
/// filled in.
pub open spec fn data_read(dev: VirtioBlkModel, offset: int, data: Seq<u8>) -> Seq<u8> {
    Seq::new(
        data.len(),
        |i: int|
            if i < 4 {
                register_bytes(dev, offset, data.len() as int)[i]
            } else {
                data[i]
            },
    )
}

/// A device over a base image of `base_size` bytes, as a guest that has set it up finds
/// it.
pub open spec fn fresh_device(queue: VirtioQueueAddrs, base_size: u64) -> VirtioBlkModel {
    VirtioBlkModel {
        queue,
        capacity_sectors: base_size / 512,
        overlay: Map::empty(),
        last_avail_idx: 0,
        interrupt_status: 0,
        status: 0xF,
    }
}

/// A device that takes the requests that are in the available ring as handled.
pub open spec fn resumed(dev: VirtioBlkModel, mem: Seq<u8>) -> VirtioBlkModel {
    VirtioBlkModel {
        last_avail_idx: if in_memory(mem, dev.queue.avail_ring + 2, 2) {
            le16(mem, dev.queue.avail_ring + 2)
        } else {
            dev.last_avail_idx
        },
        ..dev
    }
}

/// Whether an address lies in the device's register page.
pub open spec fn in_register_page(dev: VirtioBlkModel, addr: int) -> bool {
    dev.queue.mmio_base <= addr < dev.queue.mmio_base + 0x1000
}

/// The memory once the guest was asked, behind the used ring, to notify the device of
/// the request after `avail_idx`.
pub open spec fn event_asked(q: VirtioQueueAddrs, mem: Seq<u8>, avail_idx: u16) -> Seq<u8> {
    put16(mem, q.used_ring + 4 + q.queue_size * 8, avail_idx)
}

/// A device that interrupts the guest for buffers that were used.
pub open spec fn interrupted(dev: VirtioBlkModel) -> VirtioBlkModel {
    VirtioBlkModel { interrupt_status: dev.interrupt_status | 1, ..dev }
}

/// The number that a write of these bytes carries. Only writes of 1, 2 or 4 bytes
/// count.
pub open spec fn written_value(data: Seq<u8>) -> Option<u32> {
    if data.len() == 1 {
        Some(data[0] as u32)
    } else if data.len() == 2 {
        Some(le16(data, 0) as u32)
    } else if data.len() == 4 {
        Some(le32(data, 0))
    } else {
        None
    }
}

/// The device after `data` was written to the register at `offset`.
pub open spec fn after_write(dev: VirtioBlkModel, offset: int, data: Seq<u8>) -> VirtioBlkModel {
    match written_value(data) {
        None => dev,
        Some(val) => if offset == MMIO_INTERRUPT_ACK {
            VirtioBlkModel { interrupt_status: dev.interrupt_status & !val, ..dev }
        } else if offset == MMIO_STATUS {
            VirtioBlkModel { status: val, ..dev }
        } else {
            dev
        },
    }
}

/// What a write of `data` to the register at `offset` asks for.
pub open spec fn write_effect(
    dev: VirtioBlkModel,
    offset: int,
    data: Seq<u8>,
    mem: Seq<u8>,
) -> MmioEffect {
    let avail_idx = guest16(mem, dev.queue.avail_ring + 2);
    if written_value(data) is None {
        MmioEffect::Nothing
    } else if offset == MMIO_QUEUE_NOTIFY && avail_idx != dev.last_avail_idx {
        MmioEffect::Drain { avail_idx }
    } else if offset == MMIO_INTERRUPT_ACK && after_write(dev, offset, data).interrupt_status == 0 {
        MmioEffect::LowerIrq { gsi: dev.queue.gsi }
    } else {
        MmioEffect::Nothing
    }
}

/// The chain that the next request to be handled starts with.
pub open spec fn next_head(dev: VirtioBlkModel, mem: Seq<u8>) -> u16 {
    guest16(
        mem,
        dev.queue.avail_ring + 4 + (dev.last_avail_idx % dev.queue.queue_size) * 2,
    )
}

/// The memory after a request was carried out and handed back to the guest.
pub open spec fn completed_memory(
    dev: VirtioBlkModel,
    req: RequestModel,
    base: Seq<Seq<u8>>,
    mem: Seq<u8>,
) -> Seq<u8> {
    push_used(
        dev.queue,
        request_memory(req, dev.overlay, base, mem),
        req.head,
        request_bytes(req, mem.len() as int),
    )
}

/// The device after a request was carried out.
pub open spec fn completed_device(
    dev: VirtioBlkModel,
    req: RequestModel,
    mem: Seq<u8>,
) -> VirtioBlkModel {
    VirtioBlkModel {
        overlay: request_overlay(req, dev.overlay, mem),
        last_avail_idx: dev.last_avail_idx.wrapping_add(1),
        ..dev
    }
}

fn read_buffers(descs: &Vec<VirtqDesc>, mem_len: usize) -> (r: Vec<GuestBuffer>)
    requires
        2 <= descs@.len(),
    ensures
        r@ == buffers_of(descs@.subrange(1, descs@.len() - 1), mem_len as int),
        r@.len() <= descs@.len() - 2,
        all_within(r@, mem_len as int),
{
    let mut r: Vec<GuestBuffer> = Vec::new();
    let end: usize = descs.len() - 1;
    let mut i: usize = 1;
    assert(descs@.subrange(1, 1) =~= seq![]);
    while i < end
        invariant
            1 <= i <= end,
            end == descs@.len() - 1,
            r@ == buffers_of(descs@.subrange(1, i as int), mem_len as int),
            r@.len() <= i - 1,
            all_within(r@, mem_len as int),
        decreases end - i,
    {
        let d = descs[i];
        proof {
            let next = descs@.subrange(1, i + 1);
            assert(next.drop_last() =~= descs@.subrange(1, i as int));
            assert(next.last() == d);
        }
        if d.len > 0 && fits(mem_len, d.addr, d.len as u64) {
            r.push(GuestBuffer { addr: d.addr, len: d.len });
        }
        i += 1;
    }
    r
}

fn count_sectors(buffers: &Vec<GuestBuffer>) -> (r: usize)
    requires
        buffers@.len() <= 255,
    ensures
        r == sector_count(buffers@),
{
    let mut n: usize = 0;
    let mut i: usize = 0;
    assert(buffers@.take(0) =~= seq![]);
    while i < buffers.len()
        invariant
            i <= buffers@.len() <= 255,
            n == sector_count(buffers@.take(i as int)),
            n <= i * 0x80_0000,
        decreases buffers@.len() - i,
    {
        assert(buffers@.take(i + 1).drop_last() =~= buffers@.take(i as int));
        n += buffers[i].len as usize / 512;
        i += 1;
    }
    assert(buffers@.take(i as int) =~= buffers@);
    n
}

impl VirtioBlk {
    /// Every sector in the overlay is whole.
    pub open spec fn wf(&self) -> bool {
        whole_sectors(self@.overlay)
    }

    /// A device over a base image of `base_size` bytes, as a guest that has set it
    /// up finds it.
    pub fn new(queue: VirtioQueueAddrs, base_size: u64) -> (r: Self)
        ensures
            r.wf(),
            r@ == fresh_device(queue, base_size),
    {
        VirtioBlk {
            queue,
            device: OverlayBlockDevice::new(base_size),
            last_avail_idx: 0,
            interrupt_status: 0,
            status: 0xF,
        }
    }

    /// Takes the requests that were made before the snapshot as handled.
    pub fn init_from_guest_memory(&mut self, mem: &[u8])
        requires
            old(self).wf(),
        ensures
            final(self).wf(),
            final(self)@ == resumed(old(self)@, mem@),
    {
        let addr: u64 = self.queue.avail_ring.saturating_add(2);
        if fits(mem.len(), addr, 2) {
            self.last_avail_idx = r16(mem, addr as usize);
        }
    }

    /// Whether an address lies in the device's register page.
    pub fn handles_mmio(&self, addr: u64) -> (r: bool)
        ensures
            r == in_register_page(self@, addr as int),
    {
        addr >= self.queue.mmio_base && addr - self.queue.mmio_base < 0x1000
    }

    /// Where the device is in the available ring.
    pub fn last_avail_idx(&self) -> (r: u16)
        ensures
            r == self@.last_avail_idx,
    {
        self.last_avail_idx
    }

    /// Reads a register. No more than four bytes are filled in.
    pub fn mmio_read(&self, addr: u64, data: &mut [u8])
        requires
            addr >= self@.queue.mmio_base,
        ensures
            final(data)@ == data_read(self@, addr - self@.queue.mmio_base, old(data)@),
    {
        let offset: u64 = addr - self.queue.mmio_base;
        let width: usize = data.len();
        let bytes: [u8; 4] = if offset == MMIO_MAGIC {
            le_bytes(0x74726976)
        } else if offset == MMIO_VERSION || offset == MMIO_DEVICE_ID {
            le_bytes(2)
        } else if offset == MMIO_VENDOR_ID {
            le_bytes(0x554D4551)
        } else if offset == MMIO_QUEUE_NUM_MAX {
            le_bytes(self.queue.queue_size as u32)
        } else if offset == MMIO_QUEUE_READY {
            le_bytes(1)
        } else if offset == MMIO_INTERRUPT_STATUS {
            le_bytes(self.interrupt_status)
        } else if offset == MMIO_STATUS {
            le_bytes(self.status)
        } else if offset >= MMIO_CONFIG && offset - MMIO_CONFIG < 8 {
            read_config(self.device.capacity_sectors, (offset - MMIO_CONFIG) as usize, width)
        } else {
            le_bytes(0)
        };
        let n: usize = if width < 4 {
            width
        } else {
            4
        };
        let mut i: usize = 0;
        while i < n
            invariant
                i <= n <= 4,
                n <= data@.len(),
                data@.len() == old(data)@.len(),
                forall|j: int|
                    0 <= j < data@.len() ==> #[trigger] data@[j] == if j < i {
                        bytes@[j]
                    } else {
                        old(data)@[j]
                    },
            decreases n - i,
        {
            data[i] = bytes[i];
            i += 1;
        }
    }

    /// Writes a register. What this asks for beyond the device is returned.
    pub fn mmio_write(&mut self, addr: u64, data: &[u8], mem: &[u8]) -> (r: MmioEffect)
        requires
            old(self).wf(),
            addr >= old(self)@.queue.mmio_base,
        ensures
            final(self).wf(),
            final(self)@ == after_write(old(self)@, addr - old(self)@.queue.mmio_base, data@),
            r == write_effect(old(self)@, addr - old(self)@.queue.mmio_base, data@, mem@),
    {
        let offset: u64 = addr - self.queue.mmio_base;
        assert(mem.len() <= usize::MAX);
        let val: u32 = match data.len() {
            1 => data[0] as u32,
            2 => r16(data, 0) as u32,
            4 => r32(data, 0),
            _ => return MmioEffect::Nothing,
        };
        if offset == MMIO_QUEUE_NOTIFY {
            let avail_idx: u16 = read_u16(mem, self.queue.avail_ring.saturating_add(2));
            if avail_idx != self.last_avail_idx {
                return MmioEffect::Drain { avail_idx };
            }
        } else if offset == MMIO_INTERRUPT_ACK {
            self.interrupt_status = self.interrupt_status & !val;
            if self.interrupt_status == 0 {
                return MmioEffect::LowerIrq { gsi: self.queue.gsi };
            }
        } else if offset == MMIO_STATUS {
            self.status = val;
        }
        MmioEffect::Nothing
    }

    /// The next request before `avail_idx` in the available ring, unless all have
    /// been handled.
    pub fn next_request(&self, mem: &[u8], avail_idx: u16) -> (r: Option<BlkRequest>)
        requires
            self@.last_avail_idx != avail_idx ==> self@.queue.queue_size != 0,
        ensures
            match r {
                None => self@.last_avail_idx == avail_idx,
                Some(req) => {
                    &&& self@.last_avail_idx != avail_idx
                    &&& req@ == request_model(
                        mem@,
                        self@.overlay,
                        self@.queue.desc_table,
                        next_head(self@, mem@),
                    )
                    &&& req.ready(mem@.len() as int, req@.base_sectors.len() as int)
                },
            },
    {
        if self.last_avail_idx == avail_idx {
            return None;
        }
        assert(mem.len() <= usize::MAX);
        let ring_idx: u64 = (self.last_avail_idx % self.queue.queue_size) as u64;
        let head: u16 = read_u16(
            mem,
            self.queue.avail_ring.saturating_add(4 + ring_idx * 2),
        );
        Some(self.plan_request(mem, head))
    }

    /// Reads the request whose chain starts at descriptor `head`.
    pub fn plan_request(&self, mem: &[u8], head: u16) -> (r: BlkRequest)
        ensures
            r@ == request_model(mem@, self@.overlay, self@.queue.desc_table, head),
            r.ready(mem@.len() as int, r@.base_sectors.len() as int),
    {
        let mem_len: usize = mem.len();
        let descs: Vec<VirtqDesc> = read_chain(mem, self.queue.desc_table, head);
        let n: usize = descs.len();
        if n < 2 {
            return BlkRequest {
                head,
                kind: RequestKind::Short,
                sector: 0,
                buffers: Vec::new(),
                status_addr: 0,
                base_sectors: Vec::new(),
            };
        }
        let req_type: u32 = read_u32(mem, descs[0].addr);
        let sector: u64 = read_u64(mem, descs[0].addr.saturating_add(8));
        let status_addr: u64 = descs[n - 1].addr;
        let kind = if req_type == 0 {
            RequestKind::In
        } else if req_type == 1 {
            RequestKind::Out
        } else {
            RequestKind::Other
        };
        let buffers: Vec<GuestBuffer> = if kind == RequestKind::Other {
            Vec::new()
        } else {
            read_buffers(&descs, mem_len)
        };
        let base_sectors: Vec<Option<u64>> = if kind == RequestKind::In {
            self.device.base_sectors(sector, count_sectors(&buffers))
        } else {
            Vec::new()
        };
        BlkRequest { head, kind, sector, buffers, status_addr, base_sectors }
    }

    /// Carries out a request and hands it back to the guest. For each entry of the
    /// request's `base_sectors`, `base` holds what was read of that sector from the
    /// base image: nothing where the entry is `None`, and fewer than 512 bytes where
    /// the image ends or cannot be read.
    pub fn complete_request(&mut self, req: &BlkRequest, base: &Vec<Vec<u8>>, mem: &mut [u8])
        requires
            old(self).wf(),
            old(self)@.queue.queue_size != 0,
            req.ready(old(mem)@.len() as int, base@.len() as int),
        ensures
            final(self).wf(),
            final(self)@ == completed_device(old(self)@, req@, old(mem)@),
            final(mem)@ == completed_memory(old(self)@, req@, contents(base@), old(mem)@),
    {
        let bytes: u32 = self.process_request(req, base, mem);
        self.push_used(mem, req.head, bytes);
        self.last_avail_idx = self.last_avail_idx.wrapping_add(1);
    }

    /// Asks the guest to notify the device of the very next request, and sets the
    /// interrupt bit. Returns the interrupt line to be raised.
    pub fn finish_queue(&mut self, mem: &mut [u8], avail_idx: u16) -> (gsi: u32)
        requires
            old(self).wf(),
        ensures
            final(self).wf(),
            final(mem)@ == event_asked(old(self)@.queue, old(mem)@, avail_idx),
            final(self)@ == interrupted(old(self)@),
            gsi == old(self)@.queue.gsi,
    {
        assert(mem.len() <= usize::MAX);
        let addr: u64 = self.queue.used_ring.saturating_add(4 + self.queue.queue_size as u64 * 8);
        write_u16(mem, addr, avail_idx);
        self.interrupt_status = self.interrupt_status | 1;
        self.queue.gsi
    }

    /// Carries out a request, with `base` as for `complete_request`. Returns the number
    /// of bytes to report for it.
    pub fn process_request(
        &mut self,
        req: &BlkRequest,
        base: &Vec<Vec<u8>>,
        mem: &mut [u8],
    ) -> (r: u32)
        requires
            old(self).wf(),
            req.ready(old(mem)@.len() as int, base@.len() as int),
        ensures
            final(self).wf(),
            final(self)@ == (VirtioBlkModel {
                overlay: request_overlay(req@, old(self)@.overlay, old(mem)@),
                ..old(self)@
            }),
            final(mem)@ == request_memory(req@, old(self)@.overlay, contents(base@), old(mem)@),
            r == request_bytes(req@, old(mem)@.len() as int),
    {
        let mem_len: usize = mem.len();
        let mut total_bytes: u32 = 0;
        match req.kind {
            RequestKind::Short => {
                return 0;
            },
            RequestKind::In => {
                total_bytes = self.read_into(req, base, mem);
            },
            RequestKind::Out => {
                total_bytes = self.write_from(req, mem);
            },
            RequestKind::Other => {},
        }
        if req.status_addr < mem_len as u64 {
            mem[req.status_addr as usize] = 0;
            total_bytes = total_bytes.wrapping_add(1);
        }
        total_bytes
    }

    fn read_into(&self, req: &BlkRequest, base: &Vec<Vec<u8>>, mem: &mut [u8]) -> (r: u32)
        requires
            req.kind == RequestKind::In,
            req.ready(old(mem)@.len() as int, base@.len() as int),
        ensures
            final(mem)@ == transfer_in(
                old(mem)@,
                req.buffers@,
                run_data(self@.overlay, req.sector, contents(base@)),
            ),
            final(mem)@.len() == old(mem)@.len(),
            r == byte_count(req.buffers@) % 0x1_0000_0000,
    {
        let ghost run = run_data(self@.overlay, req.sector, contents(base@));
        let mem_len: usize = mem.len();
        let base_len: usize = base.len();
        let mut total: u32 = 0;
        let mut first: usize = 0;
        let mut cur_sector: u64 = req.sector;
        let mut i: usize = 0;
        assert(req.buffers@.take(0) =~= seq![]);
        while i < req.buffers.len()
            invariant
                i <= req.buffers@.len(),
                all_within(req.buffers@, mem_len as int),
                base_len == base@.len() == sector_count(req.buffers@),
                run == run_data(self@.overlay, req.sector, contents(base@)),
                first == sector_count(req.buffers@.take(i as int)),
                first <= base_len,
                cur_sector == nth_sector(req.sector, first as int),
                total == byte_count(req.buffers@.take(i as int)) % 0x1_0000_0000,
                mem_len == mem@.len() == old(mem)@.len(),
                mem@ == transfer_in(old(mem)@, req.buffers@.take(i as int), run),
            decreases req.buffers@.len() - i,
        {
            let b = req.buffers[i];
            let ghost next = req.buffers@.take(i + 1);
            let addr: usize = b.addr as usize;
            let len: usize = b.len as usize;
            let n: usize = len / 512;
            proof {
                assert(next.drop_last() =~= req.buffers@.take(i as int));
                assert(next.last() == b);
                lemma_sector_count_prefix(req.buffers@, i + 1);
                lemma_run_part(
                    self@.overlay,
                    req.sector,
                    contents(base@),
                    first as int,
                    first + n,
                );
            }
            self.device.read_sectors(cur_sector, mem, addr, len, base, first);
            proof {
                lemma_next_sector(req.sector, first as int, b.len as u64 / SECTOR_SIZE);
                lemma_next_total(byte_count(req.buffers@.take(i as int)), b.len);
            }
            cur_sector = cur_sector.wrapping_add(b.len as u64 / SECTOR_SIZE);
            first += n;
            total = total.wrapping_add(b.len);
            i += 1;
        }
        assert(req.buffers@.take(i as int) =~= req.buffers@);
        total
    }

    fn write_from(&mut self, req: &BlkRequest, mem: &[u8]) -> (r: u32)
        requires
            old(self).wf(),
            all_within(req.buffers@, mem@.len() as int),
        ensures
            final(self).wf(),
            final(self)@ == (VirtioBlkModel {
                overlay: transfer_out(old(self)@.overlay, mem@, req.buffers@, req.sector),
                ..old(self)@
            }),
            r == byte_count(req.buffers@) % 0x1_0000_0000,
    {
        let mem_len: usize = mem.len();
        let mut total: u32 = 0;
        let ghost mut first: nat = 0;
        let mut cur_sector: u64 = req.sector;
        let mut i: usize = 0;
        assert(req.buffers@.take(0) =~= seq![]);
        while i < req.buffers.len()
            invariant
                i <= req.buffers@.len(),
                mem_len == mem@.len(),
                all_within(req.buffers@, mem_len as int),
                first == sector_count(req.buffers@.take(i as int)),
                cur_sector == nth_sector(req.sector, first as int),
                total == byte_count(req.buffers@.take(i as int)) % 0x1_0000_0000,
                self.wf(),
                self@ == (VirtioBlkModel {
                    overlay: transfer_out(
                        old(self)@.overlay,
                        mem@,
                        req.buffers@.take(i as int),
                        req.sector,
                    ),
                    ..old(self)@
                }),
            decreases req.buffers@.len() - i,
        {
            let b = req.buffers[i];
            let addr: usize = b.addr as usize;
            let len: usize = b.len as usize;
            proof {
                let next = req.buffers@.take(i + 1);
                assert(next.drop_last() =~= req.buffers@.take(i as int));
                assert(next.last() == b);
            }
            self.device.write_sectors(cur_sector, slice_subrange(mem, addr, addr + len));
            proof {
                lemma_next_sector(req.sector, first as int, b.len as u64 / SECTOR_SIZE);
                lemma_next_total(byte_count(req.buffers@.take(i as int)), b.len);
                first = first + (b.len / 512) as nat;
            }
            cur_sector = cur_sector.wrapping_add(b.len as u64 / SECTOR_SIZE);
            total = total.wrapping_add(b.len);
            i += 1;
        }
        assert(req.buffers@.take(i as int) =~= req.buffers@);
        total
    }

    fn push_used(&self, mem: &mut [u8], head: u16, bytes: u32)
        requires
            self@.queue.queue_size != 0,
        ensures
            final(mem)@ == push_used(self@.queue, old(mem)@, head, bytes),
    {
        assert(mem.len() <= usize::MAX);
        let used_ring: u64 = self.queue.used_ring;
        let used_idx: u16 = read_u16(mem, used_ring.saturating_add(2));
        let slot: u64 = (used_idx % self.queue.queue_size) as u64;
        let entry: u64 = used_ring.saturating_add(4 + slot * 8);
        write_u32(mem, entry, head as u32);
        write_u32(mem, entry.saturating_add(4), bytes);
        write_u16(mem, used_ring.saturating_add(2), used_idx.wrapping_add(1));
    }
}

impl BlkRequest {
    /// Whether the request can be completed in a memory of `mem_len` bytes with
    /// `base_len` results from the base image.
    pub open spec fn ready(&self, mem_len: int, base_len: int) -> bool {
        &&& all_within(self.buffers@, mem_len)
        &&& self.kind == RequestKind::In ==> base_len == sector_count(self.buffers@)
    }

    /// Whether the request can be completed in a memory of `mem_len` bytes with
    /// `base_len` results from the base image.
    pub fn is_ready(&self, mem_len: usize, base_len: usize) -> (r: bool)
        ensures
            r == self.ready(mem_len as int, base_len as int),
    {
        let mut sectors: u128 = 0;
        let mut i: usize = 0;
        assert(self.buffers@.take(0) =~= seq![]);
        while i < self.buffers.len()
            invariant
                i <= self.buffers@.len(),
                sectors == sector_count(self.buffers@.take(i as int)),
                sectors <= i * 0x80_0000,
                forall|j: int|
                    0 <= j < i ==> (#[trigger] self.buffers@[j]).addr + self.buffers@[j].len
                        <= mem_len,
            decreases self.buffers@.len() - i,
        {
            let b = self.buffers[i];
            if !fits(mem_len, b.addr, b.len as u64) {
                return false;
            }
            assert(self.buffers@.take(i + 1).drop_last() =~= self.buffers@.take(i as int));
            sectors += b.len as u128 / 512;
            i += 1;
        }
        assert(self.buffers@.take(i as int) =~= self.buffers@);
        self.kind != RequestKind::In || base_len as u128 == sectors
    }
}

proof fn lemma_next_sector(s: u64, i: int, n: u64)
    requires
        0 <= i,
    ensures
        nth_sector(s, i).wrapping_add(n) == nth_sector(s, i + n),
{
    lemma_add_mod_noop(s + i, n as int, 0x1_0000_0000_0000_0000);
}

proof fn lemma_next_total(count: nat, n: u32)
    ensures
        ((count % 0x1_0000_0000) as u32).wrapping_add(n) == (count + n) % 0x1_0000_0000,
{
    lemma_add_mod_noop(count as int, n as int, 0x1_0000_0000);
}

proof fn lemma_run_part(
    ov: Map<u64, Seq<u8>>,
    s: u64,
    base: Seq<Seq<u8>>,
    from: int,
    to: int,
)
    requires
        0 <= from <= to <= base.len(),
    ensures
        run_data(ov, nth_sector(s, from), base.subrange(from, to)) == run_data(
            ov,
            s,
            base,
        ).subrange(from, to),
{
    let part = run_data(ov, nth_sector(s, from), base.subrange(from, to));
    assert forall|k: int| 0 <= k < to - from implies part[k] == run_data(ov, s, base)[from
        + k] by {
        assert(nth_sector(nth_sector(s, from), k) == nth_sector(s, from + k));
    }
    assert(part =~= run_data(ov, s, base).subrange(from, to));
}

proof fn lemma_sector_count_prefix(buffers: Seq<GuestBuffer>, i: int)
    requires
        0 <= i <= buffers.len(),
    ensures
        sector_count(buffers.take(i)) <= sector_count(buffers),
    decreases buffers.len(),
{
    if i == buffers.len() {
        assert(buffers.take(i) =~= buffers);
    } else {
        assert(buffers.drop_last().take(i) =~= buffers.take(i));
        lemma_sector_count_prefix(buffers.drop_last(), i);
    }
}

fn le_bytes(v: u32) -> (r: [u8; 4])
    ensures
        r@ == bytes32(v),
{
    let r: [u8; 4] = [
        (v % 0x100) as u8,
        (v / 0x100 % 0x100) as u8,
        (v / 0x1_0000 % 0x100) as u8,
        (v / 0x100_0000) as u8,
    ];
    assert(r@ =~= bytes32(v));
    r
}

fn capacity_byte(capacity: u64, k: usize) -> (r: u8)
    requires
        k < 8,
    ensures
        r == byte_of64(capacity, k as int),
{
    let half: u32 = if k < 4 {
        (capacity % 0x1_0000_0000) as u32
    } else {
        (capacity / 0x1_0000_0000) as u32
    };
    let bytes = le_bytes(half);
    bytes[k % 4]
}

fn read_config(capacity: u64, off: usize, width: usize) -> (r: [u8; 4])
    requires
        off < 8,
    ensures
        r@ == config_bytes(capacity, off as int, width as int),
{
    let n: usize = if width < 8 - off {
        width
    } else {
        8 - off
    };
    let mut r: [u8; 4] = [0;4];
    let mut i: usize = 0;
    while i < 4
        invariant
            i <= 4,
            off < 8,
            n == if width < 8 - off { width as int } else { 8 - off },
            forall|j: int|
                0 <= j < i ==> r@[j] == config_bytes(capacity, off as int, width as int)[j],
        decreases 4 - i,
    {
        let low: u8 = if i < n {
            capacity_byte(capacity, off + i)
        } else {
            0
        };
        let high: u8 = if i + 4 < n {
            capacity_byte(capacity, off + i + 4)
        } else {
            0
        };
        r[i] = low | high;
        i += 1;
    }
    r
}

} // verus!

use zeroboot::vmm::guest_memory::{read_u16, read_u32, read_u64, write_u16, write_u32};
use zeroboot::vmm::virtio_blk::{
    base_offset, read_chain, read_desc, MmioEffect, OverlayBlockDevice, RequestKind, VirtioBlk,
    VirtioQueueAddrs,
};

const DESC: u64 = 0x100;
const AVAIL: u64 = 0x400;
const USED: u64 = 0x500;
const BASE: u64 = 0xc0001000;

fn queue() -> VirtioQueueAddrs {
    VirtioQueueAddrs {
        desc_table: DESC,
        avail_ring: AVAIL,
        used_ring: USED,
        queue_size: 4,
        mmio_base: BASE,
        gsi: 5,
    }
}

fn put_desc(mem: &mut [u8], i: usize, addr: u64, len: u32, next: Option<u16>) {
    let o = DESC as usize + i * 16;
    mem[o..o + 8].copy_from_slice(&addr.to_le_bytes());
    mem[o + 8..o + 12].copy_from_slice(&len.to_le_bytes());
    mem[o + 12..o + 14].copy_from_slice(&(next.is_some() as u16).to_le_bytes());
    mem[o + 14..o + 16].copy_from_slice(&next.unwrap_or(0).to_le_bytes());
}

// A chain of header, one buffer at 0x1000 and status, offered to the device.
fn put_request(mem: &mut [u8], req_type: u32, sector: u64, len: u32) {
    mem[0x800..0x804].copy_from_slice(&req_type.to_le_bytes());
    mem[0x808..0x810].copy_from_slice(&sector.to_le_bytes());
    put_desc(mem, 0, 0x800, 16, Some(1));
    put_desc(mem, 1, 0x1000, len, Some(2));
    put_desc(mem, 2, 0x900, 1, None);
    mem[0x900] = 0xff;
    let idx = read_u16(mem, AVAIL + 2);
    write_u16(mem, AVAIL + 4 + (idx % 4) as u64 * 2, 0);
    write_u16(mem, AVAIL + 2, idx.wrapping_add(1));
}

fn read_image(image: &[u8], sector: u64) -> Vec<u8> {
    let from = (base_offset(sector) as usize).min(image.len());
    let to = (from + 512).min(image.len());
    image[from..to].to_vec()
}

fn notify(dev: &mut VirtioBlk, mem: &mut [u8], image: &[u8]) -> Option<u32> {
    let effect = dev.mmio_write(BASE + 0x50, &[0, 0, 0, 0], mem);
    let avail_idx = match effect {
        MmioEffect::Drain { avail_idx } => avail_idx,
        _ => return None,
    };
    while let Some(req) = dev.next_request(mem, avail_idx) {
        let base: Vec<Vec<u8>> = req
            .base_sectors
            .iter()
            .map(|s| s.map_or(Vec::new(), |s| read_image(image, s)))
            .collect();
        assert!(req.is_ready(mem.len(), base.len()));
        dev.complete_request(&req, &base, mem);
    }
    Some(dev.finish_queue(mem, avail_idx))
}

fn image() -> Vec<u8> {
    (0..4096).map(|i| (i / 512 + 1) as u8).collect()
}

fn read32(dev: &VirtioBlk, offset: u64) -> u32 {
    let mut b = [0u8; 4];
    dev.mmio_read(BASE + offset, &mut b);
    u32::from_le_bytes(b)
}

#[test]
fn guest_words() {
    let mut mem = vec![0u8; 16];
    write_u32(&mut mem, 4, 0x04030201);
    assert_eq!(mem[4..8], [1, 2, 3, 4]);
    assert_eq!(read_u32(&mem, 4), 0x04030201);
    write_u16(&mut mem, 14, 0xbeef);
    assert_eq!(read_u16(&mem, 14), 0xbeef);
    assert_eq!(read_u64(&mem, 4), 0x04030201);
    let before = mem.clone();
    write_u16(&mut mem, 15, 1);
    write_u32(&mut mem, u64::MAX, 1);
    assert_eq!(mem, before);
    assert_eq!(read_u16(&mem, 15), 0);
    assert_eq!(read_u32(&mem, 13), 0);
    assert_eq!(read_u64(&mem, u64::MAX), 0);
}

#[test]
fn descriptors() {
    let mut mem = vec![0u8; 0x2000];
    put_desc(&mut mem, 3, 0x1234, 77, Some(9));
    let d = read_desc(&mem, DESC, 3);
    assert_eq!((d.addr, d.len, d.flags, d.next), (0x1234, 77, 1, 9));
    assert_eq!(read_desc(&mem, u64::MAX, 3).addr, 0);
}

#[test]
fn circular_chain_ends() {
    let mut mem = vec![0u8; 0x2000];
    put_desc(&mut mem, 0, 0x1000, 8, Some(0));
    assert_eq!(read_chain(&mem, DESC, 0).len(), 257);
}

#[test]
fn overlay_sectors() {
    let mut disk = OverlayBlockDevice::new(2000);
    let mut data = vec![7u8; 512];
    data.extend(vec![8u8; 512]);
    data.extend(vec![9u8; 100]);
    disk.write_sectors(1, &data);
    assert_eq!(disk.base_sectors(0, 4), vec![Some(0), None, None, Some(3)]);
    let base = vec![vec![1u8; 512], vec![], vec![], vec![2u8; 10]];
    let mut mem = vec![0xeeu8; 2100];
    disk.read_sectors(0, &mut mem, 10, 2060, &base, 0);
    assert_eq!(mem[9], 0xee);
    assert_eq!(mem[10..522], [1u8; 512]);
    assert_eq!(mem[522..1034], [7u8; 512]);
    assert_eq!(mem[1034..1546], [8u8; 512]);
    assert_eq!(mem[1546..1556], [2u8; 10]);
    assert_eq!(mem[1556], 0xee);
}

#[test]
fn base_offsets() {
    assert_eq!(base_offset(3), 1536);
    assert_eq!(base_offset(1 << 55), 0);
}

#[test]
fn read_from_base() {
    let mut mem = vec![0u8; 0x4000];
    let mut dev = VirtioBlk::new(queue(), 4096);
    put_request(&mut mem, 0, 2, 1024);
    assert_eq!(notify(&mut dev, &mut mem, &image()), Some(5));
    assert_eq!(mem[0x1000..0x1200], [3u8; 512]);
    assert_eq!(mem[0x1200..0x1400], [4u8; 512]);
    assert_eq!(mem[0x900], 0);
    assert_eq!(read_u16(&mem, USED + 2), 1);
    assert_eq!(read_u32(&mem, USED + 4), 0);
    assert_eq!(read_u32(&mem, USED + 8), 1025);
    assert_eq!(read_u16(&mem, USED + 4 + 32), 1);
    assert_eq!(dev.last_avail_idx(), 1);
}

#[test]
fn write_then_read_back() {
    let mut mem = vec![0u8; 0x4000];
    let mut dev = VirtioBlk::new(queue(), 4096);
    let img = image();
    for b in mem[0x1000..0x1200].iter_mut() {
        *b = 0x5a;
    }
    put_request(&mut mem, 1, 3, 512);
    notify(&mut dev, &mut mem, &img);
    assert_eq!(read_u32(&mem, USED + 8), 513);
    for b in mem[0x1000..0x1600].iter_mut() {
        *b = 0;
    }
    put_request(&mut mem, 0, 2, 1536);
    notify(&mut dev, &mut mem, &img);
    assert_eq!(mem[0x1000..0x1200], [3u8; 512]);
    assert_eq!(mem[0x1200..0x1400], [0x5au8; 512]);
    assert_eq!(mem[0x1400..0x1600], [5u8; 512]);
    assert_eq!(img, image());
    let mut other = VirtioBlk::new(queue(), 4096);
    let mut mem2 = vec![0u8; 0x4000];
    put_request(&mut mem2, 0, 3, 512);
    notify(&mut other, &mut mem2, &img);
    assert_eq!(mem2[0x1000..0x1200], [4u8; 512]);
}

#[test]
fn several_buffers_are_one_transfer() {
    let mut mem = vec![0u8; 0x4000];
    let mut dev = VirtioBlk::new(queue(), 4096);
    for (i, b) in mem[0x1000..0x1800].iter_mut().enumerate() {
        *b = (i / 512 + 0x10) as u8;
    }
    put_request(&mut mem, 1, 1, 1100);
    put_desc(&mut mem, 1, 0x1000, 1100, Some(3));
    put_desc(&mut mem, 3, 0x1600, 512, Some(2));
    notify(&mut dev, &mut mem, &image());
    assert_eq!(read_u32(&mem, USED + 8), 1613);
    put_request(&mut mem, 0, 0, 2048);
    put_desc(&mut mem, 1, 0x2000, 512, Some(3));
    put_desc(&mut mem, 3, 0x2800, 2048, Some(2));
    notify(&mut dev, &mut mem, &image());
    assert_eq!(mem[0x2000..0x2200], [1u8; 512]);
    assert_eq!(mem[0x2800..0x2a00], [0x10u8; 512]);
    assert_eq!(mem[0x2a00..0x2c00], [0x11u8; 512]);
    assert_eq!(mem[0x2c00..0x2e00], [0x13u8; 512]);
    assert_eq!(mem[0x2e00..0x3000], [5u8; 512]);
}

#[test]
fn one_request_at_a_time() {
    let mut mem = vec![0u8; 0x4000];
    let mut dev = VirtioBlk::new(queue(), 4096);
    for (i, b) in mem[0x1000..0x1400].iter_mut().enumerate() {
        *b = (i % 251) as u8;
    }
    let sent = mem[0x1000..0x1400].to_vec();
    put_request(&mut mem, 1, 2, 1024);
    let req = dev.plan_request(&mem, 0);
    assert_eq!(dev.process_request(&req, &Vec::new(), &mut mem), 1025);
    put_request(&mut mem, 1, 4, 512);
    let elsewhere = dev.plan_request(&mem, 0);
    assert_eq!(dev.process_request(&elsewhere, &Vec::new(), &mut mem), 513);
    put_request(&mut mem, 0, 2, 512);
    put_desc(&mut mem, 1, 0x3000, 512, Some(3));
    put_desc(&mut mem, 3, 0x2000, 512, Some(2));
    let req = dev.plan_request(&mem, 0);
    assert_eq!(req.base_sectors, vec![None, None]);
    assert_eq!(dev.process_request(&req, &vec![Vec::new(), Vec::new()], &mut mem), 1025);
    assert_eq!(mem[0x3000..0x3200], sent[..512]);
    assert_eq!(mem[0x2000..0x2200], sent[512..]);
}

#[test]
fn read_past_the_image() {
    let mut mem = vec![0u8; 0x4000];
    let mut dev = VirtioBlk::new(queue(), 4096);
    mem[0x1000] = 0x77;
    put_request(&mut mem, 0, 100, 512);
    notify(&mut dev, &mut mem, &image());
    assert_eq!(mem[0x1000], 0x77);
    assert_eq!(mem[0x900], 0);
}

#[test]
fn flush_and_unknown_types() {
    let mut mem = vec![0u8; 0x4000];
    let mut dev = VirtioBlk::new(queue(), 4096);
    put_request(&mut mem, 4, 0, 512);
    notify(&mut dev, &mut mem, &image());
    assert_eq!(mem[0x900], 0);
    assert_eq!(read_u32(&mem, USED + 8), 1);
    put_request(&mut mem, 99, 0, 512);
    assert_eq!(dev.plan_request(&mem, 0).kind, RequestKind::Other);
    notify(&mut dev, &mut mem, &image());
    assert_eq!(read_u32(&mem, USED + 16), 1);
    assert_eq!(mem[0x1000], 0);
}

#[test]
fn short_chain() {
    let mut mem = vec![0u8; 0x4000];
    let mut dev = VirtioBlk::new(queue(), 4096);
    put_request(&mut mem, 0, 0, 512);
    put_desc(&mut mem, 0, 0x800, 16, None);
    assert_eq!(dev.plan_request(&mem, 0).kind, RequestKind::Short);
    notify(&mut dev, &mut mem, &image());
    assert_eq!(read_u32(&mem, USED + 8), 0);
    assert_eq!(mem[0x900], 0xff);
}

#[test]
fn buffers_outside_memory_are_skipped() {
    let mut mem = vec![0u8; 0x4000];
    let mut dev = VirtioBlk::new(queue(), 4096);
    put_request(&mut mem, 0, 0, 512);
    put_desc(&mut mem, 1, 0x3fff, 512, Some(2));
    notify(&mut dev, &mut mem, &image());
    assert_eq!(read_u32(&mem, USED + 8), 1);
}

#[test]
fn several_requests_and_wrap() {
    let mut mem = vec![0u8; 0x4000];
    let mut dev = VirtioBlk::new(queue(), 4096);
    for _ in 0..6 {
        put_request(&mut mem, 0, 1, 512);
    }
    notify(&mut dev, &mut mem, &image());
    assert_eq!(dev.last_avail_idx(), 6);
    assert_eq!(read_u16(&mem, USED + 2), 6);
    assert_eq!(read_u16(&mem, USED + 36), 6);
}

#[test]
fn used_ring_after_a_drain() {
    let mut mem = vec![0u8; 0x4000];
    let mut dev = VirtioBlk::new(queue(), 4096);
    write_u16(&mut mem, USED + 2, 65534);
    let lens = [512u32, 1024, 0, 1536];
    for (k, len) in lens.iter().enumerate() {
        let head = k * 3;
        let header = 0x800 + k as u64 * 16;
        mem[header as usize] = if *len == 0 { 4 } else { 0 };
        put_desc(&mut mem, head, header, 16, Some(head as u16 + 1));
        put_desc(&mut mem, head + 1, 0x1000, *len, Some(head as u16 + 2));
        put_desc(&mut mem, head + 2, 0x900 + k as u64, 1, None);
        write_u16(&mut mem, AVAIL + 4 + k as u64 * 2, head as u16);
    }
    write_u16(&mut mem, AVAIL + 2, 4);
    notify(&mut dev, &mut mem, &image());
    assert_eq!(read_u16(&mem, USED + 2), 2);
    for (k, slot) in [2u64, 3, 0, 1].iter().enumerate() {
        assert_eq!(read_u32(&mem, USED + 4 + slot * 8), k as u32 * 3);
        assert_eq!(read_u32(&mem, USED + 8 + slot * 8), lens[k] + 1);
    }
}

#[test]
fn notify_without_request() {
    let mut mem = vec![0u8; 0x4000];
    let mut dev = VirtioBlk::new(queue(), 4096);
    let before = mem.clone();
    assert_eq!(notify(&mut dev, &mut mem, &image()), None);
    assert_eq!(mem, before);
    assert_eq!(read32(&dev, 0x60), 0);
}

#[test]
fn snapshot_requests_are_not_repeated() {
    let mut mem = vec![0u8; 0x4000];
    put_request(&mut mem, 0, 0, 512);
    let mut dev = VirtioBlk::new(queue(), 4096);
    dev.init_from_guest_memory(&mem);
    assert_eq!(dev.last_avail_idx(), 1);
    assert_eq!(notify(&mut dev, &mut mem, &image()), None);
    dev.init_from_guest_memory(&mem[..0x402]);
    assert_eq!(dev.last_avail_idx(), 1);
}

#[test]
fn interrupt_bits() {
    let mut mem = vec![0u8; 0x4000];
    let mut dev = VirtioBlk::new(queue(), 4096);
    put_request(&mut mem, 4, 0, 0);
    notify(&mut dev, &mut mem, &image());
    assert_eq!(read32(&dev, 0x60), 1);
    assert_eq!(dev.mmio_write(BASE + 0x64, &[2], &mem), MmioEffect::Nothing);
    assert_eq!(read32(&dev, 0x60), 1);
    assert_eq!(dev.mmio_write(BASE + 0x64, &[1, 0, 0], &mem), MmioEffect::Nothing);
    assert_eq!(dev.mmio_write(BASE + 0x64, &[1, 0], &mem), MmioEffect::LowerIrq { gsi: 5 });
    assert_eq!(read32(&dev, 0x60), 0);
}

#[test]
fn registers() {
    let mut dev = VirtioBlk::new(queue(), (0x1_0000_0002 << 9) + 100);
    assert_eq!(read32(&dev, 0x00), 0x74726976);
    assert_eq!(read32(&dev, 0x04), 2);
    assert_eq!(read32(&dev, 0x08), 2);
    assert_eq!(read32(&dev, 0x0c), 0x554D4551);
    assert_eq!(read32(&dev, 0x10), 0);
    assert_eq!(read32(&dev, 0x34), 4);
    assert_eq!(read32(&dev, 0x44), 1);
    assert_eq!(read32(&dev, 0x70), 0xf);
    assert_eq!(read32(&dev, 0xfc), 0);
    assert_eq!(read32(&dev, 0x100), 2);
    assert_eq!(read32(&dev, 0x104), 1);
    assert_eq!(read32(&dev, 0x108), 0);
    dev.mmio_write(BASE + 0x70, &[0x0b], &[]);
    assert_eq!(read32(&dev, 0x70), 0xb);
    let mut one = [9u8; 1];
    dev.mmio_read(BASE, &mut one);
    assert_eq!(one, [0x76]);
    let mut eight = [9u8; 8];
    dev.mmio_read(BASE + 0x100, &mut eight);
    assert_eq!(eight, [3, 0, 0, 0, 9, 9, 9, 9]);
}

#[test]
fn register_page() {
    let dev = VirtioBlk::new(queue(), 0);
    assert!(!dev.handles_mmio(BASE - 1));
    assert!(dev.handles_mmio(BASE));
    assert!(dev.handles_mmio(BASE + 0xfff));
    assert!(!dev.handles_mmio(BASE + 0x1000));
}

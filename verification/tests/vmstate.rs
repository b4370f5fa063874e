use zeroboot::bytes::{r16, r32, r64};
use zeroboot::vmm::vmstate::{
    collect_cpuid_entries, collect_cpuid_entries_old, count_vcpu_regs, find_efer, find_first_regs, find_ioapic,
    find_lapic, find_nth_xsave, find_xsave, parse_cpuid, parse_msrs, parse_vmstate,
    parse_virtio_queue_addrs, parse_xcrs, parse_xsave, valid_mxcsr, valid_queue_addrs, VmStateError,
};

fn put16(d: &mut [u8], o: usize, v: u16) {
    d[o..o + 2].copy_from_slice(&v.to_le_bytes());
}

fn put32(d: &mut [u8], o: usize, v: u32) {
    d[o..o + 4].copy_from_slice(&v.to_le_bytes());
}

fn put64(d: &mut [u8], o: usize, v: u64) {
    d[o..o + 8].copy_from_slice(&v.to_le_bytes());
}

const SEGS: usize = 2000;
const EFER: usize = SEGS + 264;

fn put_sregs(d: &mut [u8], segs: usize, efer: u64) {
    put64(d, segs, 0x1111);
    put32(d, segs + 8, 0xfffff);
    put16(d, segs + 12, 0x10);
    d[segs + 14] = 11;
    d[segs + 15] = 1;
    d[segs + 19] = 1;
    put64(d, segs + 192, 0xfffffe0000001000);
    put16(d, segs + 200, 127);
    put64(d, segs + 208, 0xfffffe0000000000);
    put16(d, segs + 216, 4095);
    put64(d, segs + 224, 0x80050033);
    put64(d, segs + 232, 0xdead);
    put64(d, segs + 240, 0x1000000);
    put64(d, segs + 248, 0x3606f0);
    put64(d, segs + 264, efer);
    put64(d, segs + 272, 0xfee00900);
}

fn put_lapic(d: &mut [u8], o: usize) {
    put32(d, o + 0x30, 0x50014);
    put32(d, o + 0xf0, 0x1ff);
    d[o + 0x20] = 0x80;
}

fn put_xsave(d: &mut [u8], o: usize, mark: u32) {
    put16(d, o, 0x037f);
    put32(d, o + 24, 0x1fa0);
    put32(d, o + 4092, mark);
}

// Two vCPUs, with every structure present.
fn snapshot() -> Vec<u8> {
    let mut d = vec![0u8; 32768];
    put_sregs(&mut d, SEGS, 0xd01);
    put_sregs(&mut d, SEGS + 312, 0xd01);
    for (n, regs) in [1704usize, 1848].iter().enumerate() {
        for k in 0..17 {
            put64(&mut d, regs + k * 8, 0x100000 * (n as u64 + 1) + k as u64 * 0x1000000);
        }
        put64(&mut d, regs + 136, 0x246);
    }
    put64(&mut d, 1992, 2);
    put32(&mut d, 3000, 1);
    put64(&mut d, 3016, 7);
    put64(&mut d, 5000, 0xfec00000);
    for k in 0..24 {
        put64(&mut d, 5024 + k * 8, 0x10000 + k as u64);
    }
    put_lapic(&mut d, 6000);
    put_lapic(&mut d, 7024);
    put_xsave(&mut d, 10000, 0xaaaa);
    put_xsave(&mut d, 14196, 0xbbbb);
    for (k, f) in [0u32, 1, 2, 3, 4, 7].iter().enumerate() {
        put32(&mut d, 20000 + k * 40, *f);
        put32(&mut d, 20000 + k * 40 + 12, 0x50 + k as u32);
    }
    d[20016..20020].copy_from_slice(b"Genu");
    for (k, a) in [0x200000u32, 0x201000, 0x202000].iter().enumerate() {
        d[22000 + k * 5] = 2;
        put32(&mut d, 22001 + k * 5, *a);
    }
    put32(&mut d, 23000, 0xc0000082);
    put64(&mut d, 23008, 0xffffffff81000000);
    put32(&mut d, 23200, 0xc0000102);
    put32(&mut d, 23300, 0xc0000082);
    put64(&mut d, 23308, 0xffffffff82000000);
    d
}

#[test]
fn little_endian_reads() {
    let d: Vec<u8> = vec![0x11, 1, 2, 3, 4, 5, 6, 7, 8];
    assert_eq!(r16(&d, 1), 0x0201);
    assert_eq!(r32(&d, 1), 0x04030201);
    assert_eq!(r64(&d, 1), 0x0807060504030201);
}

#[test]
fn whole_snapshot() {
    let s = parse_vmstate(&snapshot()).unwrap();
    assert_eq!(s.regs.rax, 0x100000);
    assert_eq!(s.regs.rip, 0x100000 + 16 * 0x1000000);
    assert_eq!(s.regs.rflags, 0x246);
    assert_eq!(s.sregs.cs.base, 0x1111);
    assert_eq!(s.sregs.cs.limit, 0xfffff);
    assert_eq!(s.sregs.cs.selector, 0x10);
    assert_eq!(s.sregs.cs.type_, 11);
    assert_eq!(s.sregs.cs.present, 1);
    assert_eq!(s.sregs.cs.l, 1);
    assert_eq!(s.sregs.gdt.base, 0xfffffe0000001000);
    assert_eq!(s.sregs.gdt.limit, 127);
    assert_eq!(s.sregs.idt.limit, 4095);
    assert_eq!(s.sregs.cr0, 0x80050033);
    assert_eq!(s.sregs.cr3, 0x1000000);
    assert_eq!(s.sregs.cr8, 0);
    assert_eq!(s.sregs.efer, 0xd01);
    assert_eq!(s.sregs.apic_base, 0xfee00900);
    assert_eq!(s.sregs.interrupt_bitmap, [0; 4]);
    assert_eq!(s.lapic.regs[0x20], -128);
    assert_eq!(s.lapic.regs[0x30], 0x14);
    assert_eq!(s.ioapic_redirtbl[23], 0x10017);
    assert_eq!(s.xcrs.nr_xcrs, 1);
    assert_eq!(s.xcrs.xcrs[0].value, 7);
    assert_eq!(s.xsave.region[0], 0x037f);
    assert_eq!(s.xsave.region[1023], 0xaaaa);
    let functions: Vec<u32> = s.cpuid_entries.iter().map(|e| e.function).collect();
    assert_eq!(functions, vec![0, 1, 2, 3, 4, 7]);
    assert_eq!(s.cpuid_entries[5].eax, 0x55);
    let q = s.virtio_queue.unwrap();
    assert_eq!((q.desc_table, q.avail_ring, q.used_ring), (0x200000, 0x201000, 0x202000));
    assert_eq!((q.queue_size, q.mmio_base, q.gsi), (256, 0xc0001000, 5));
    let msrs: Vec<(u32, u64)> = s.msrs.iter().map(|m| (m.index, m.data)).collect();
    assert_eq!(msrs, vec![(0xc0000102, 0), (0xc0000082, 0xffffffff82000000)]);
}

#[test]
fn secondary_vcpu() {
    let mut d = snapshot();
    put64(&mut d, SEGS + 312, 0x2222);
    let s = parse_vmstate(&d).unwrap();
    assert_eq!(s.secondary_vcpus.len(), 1);
    let v = &s.secondary_vcpus[0];
    assert_eq!(v.regs.rax, 0x200000);
    assert_eq!(v.sregs.cs.base, 0x2222);
    assert_eq!(v.sregs.efer, 0xd01);
    assert_eq!(v.lapic.regs[0x30], 0x14);
    assert_eq!(v.xcrs.xcrs[0].value, 7);
    assert_eq!(v.xsave.region[1023], 0xbbbb);
}

#[test]
fn vcpu_blocks() {
    let d = snapshot();
    let regs = find_first_regs(&d, SEGS).unwrap();
    let n = count_vcpu_regs(&d, regs, SEGS);
    assert_eq!((regs, n), (1704, 2));
    let end = regs + 144 * n;
    assert!(SEGS - 56 <= end && end < SEGS);
    for k in 0..n {
        assert_eq!(r64(&d, regs + 144 * k + 136), 0x246);
    }
    assert_eq!(count_vcpu_regs(&d, 1848, SEGS), 1);
    assert_eq!(count_vcpu_regs(&[], 10, 100), 1);
}

#[test]
fn single_vcpu_has_no_secondaries() {
    let mut d = snapshot();
    put64(&mut d, 1840, 0);
    let s = parse_vmstate(&d).unwrap();
    assert_eq!(s.regs.rax, 0x200000);
    assert!(s.secondary_vcpus.is_empty());
}

#[test]
fn missing_efer() {
    assert_eq!(parse_vmstate(&[]).unwrap_err(), VmStateError::EferNotFound);
    assert_eq!(find_efer(&vec![0u8; 4096]).unwrap_err().message(), "cannot find EFER in vmstate");
    let mut d = snapshot();
    put64(&mut d, SEGS + 272, 0xfed00900);
    put64(&mut d, SEGS + 312 + 272, 0xfed00900);
    assert_eq!(parse_vmstate(&d).unwrap_err(), VmStateError::EferNotFound);
}

#[test]
fn efer_values_are_tried_in_order() {
    let mut d = vec![0u8; 4096];
    put_sregs(&mut d, 100, 0x500);
    assert_eq!(find_efer(&d), Ok(364));
    put_sregs(&mut d, 2000, 0x501);
    assert_eq!(find_efer(&d), Ok(2264));
}

#[test]
fn missing_rflags() {
    let mut d = snapshot();
    for b in d[1936..1992].iter_mut() {
        *b = 0;
    }
    let e = parse_vmstate(&d).unwrap_err();
    assert_eq!(e, VmStateError::RflagsNotFound);
    assert_eq!(e.message(), "cannot find rflags before segs");
}

#[test]
fn registers_before_the_data() {
    let mut d = vec![0u8; 4096];
    put_sregs(&mut d, 120, 0xd01);
    put64(&mut d, 96, 1);
    put64(&mut d, 104, 0x246);
    put64(&mut d, 112, 2);
    assert_eq!(find_first_regs(&d, 120), Err(VmStateError::RegsOutOfRange));
    assert_eq!(
        parse_vmstate(&d).unwrap_err().message(),
        "registers start before the vmstate"
    );
}

#[test]
fn missing_ioapic() {
    let mut d = snapshot();
    put64(&mut d, 5024, 0x100000);
    assert_eq!(find_ioapic(&d), Err(VmStateError::IoapicNotFound));
    assert_eq!(
        parse_vmstate(&d).unwrap_err().message(),
        "cannot find IOAPIC base address 0xFEC00000 in vmstate"
    );
}

#[test]
fn missing_lapic() {
    let mut d = snapshot();
    put32(&mut d, 6000 + 0xf0, 0xff);
    assert_eq!(find_lapic(&d), Ok(7024));
    put32(&mut d, 7024, 1);
    assert_eq!(find_lapic(&d), Err(VmStateError::LapicNotFound));
    assert_eq!(parse_vmstate(&d).unwrap_err().message(), "cannot find LAPIC in vmstate");
}

#[test]
fn secondary_registers_past_the_data() {
    let mut d = vec![0u8; 3284];
    put64(&mut d, 0, 0xfec00000);
    put_lapic(&mut d, 300);
    put64(&mut d, 2832, 5);
    put64(&mut d, 2840, 0x246);
    put64(&mut d, 2976, 5);
    put64(&mut d, 2984, 0x246);
    put64(&mut d, 2992, 2);
    put_sregs(&mut d, 3000, 0xd01);
    let e = parse_vmstate(&d).unwrap_err();
    assert_eq!(e, VmStateError::SregsOutOfRange);
    assert_eq!(e.message(), "special registers end past the vmstate");
}

#[test]
fn xsave_areas_are_found_one_after_the_other() {
    let mut d = vec![0u8; 20000];
    put_xsave(&mut d, 100, 1);
    put_xsave(&mut d, 5000, 2);
    put_xsave(&mut d, 10000, 3);
    assert_eq!(find_xsave(&d, 0), Some(100));
    assert_eq!(find_xsave(&d, 101), Some(5000));
    assert_eq!(find_nth_xsave(&d, 100, 0), Some(100));
    assert_eq!(find_nth_xsave(&d, 100, 1), Some(5000));
    assert_eq!(find_nth_xsave(&d, 100, 2), Some(10000));
    assert_eq!(find_nth_xsave(&d, 100, 3), None);
}

#[test]
fn mxcsr_values() {
    assert!(valid_mxcsr(0x1f80));
    assert!(valid_mxcsr(0x9fff));
    assert!(!valid_mxcsr(0x1f00));
    assert!(!valid_mxcsr(0x11f80));
}

#[test]
fn xsave_at_the_end_is_padded() {
    let mut d = vec![0u8; 10];
    put32(&mut d, 0, 5);
    put32(&mut d, 4, 6);
    let x = parse_xsave(&d, 0);
    assert_eq!((x.region[0], x.region[1], x.region[2]), (5, 6, 0));
    assert_eq!(parse_xsave(&d, 50).region[0], 0);
}

#[test]
fn xcr_lists() {
    let mut d = vec![0u8; 48];
    put32(&mut d, 0, 2);
    put64(&mut d, 16, 7);
    put32(&mut d, 24, 1);
    put64(&mut d, 32, 9);
    let x = parse_xcrs(&d, 0);
    assert_eq!(x.nr_xcrs, 2);
    assert_eq!(x.xcrs[0].value, 7);
    assert_eq!((x.xcrs[1].xcr, x.xcrs[1].value), (1, 9));
    assert_eq!(parse_xcrs(&d, 30).nr_xcrs, 0);
}

#[test]
fn xcrs_default_to_x87() {
    let mut d = snapshot();
    put64(&mut d, 3016, 6);
    let s = parse_vmstate(&d).unwrap();
    assert_eq!((s.xcrs.nr_xcrs, s.xcrs.xcrs[0].value), (1, 1));
}

#[test]
fn cpuid_with_headers() {
    let mut d = vec![0u8; 2000];
    for k in 0..5usize {
        put64(&mut d, 500 + k * 48, 0x28);
        put32(&mut d, 508 + k * 48, k as u32);
    }
    d[524..528].copy_from_slice(b"Auth");
    let e = parse_cpuid(&d);
    assert_eq!(e.len(), 5);
    assert_eq!(e[0].ebx, 0x68747541);
    assert_eq!(e[4].function, 4);
    assert_eq!(collect_cpuid_entries_old(&d, 500, 48).len(), 5);
}

#[test]
fn cpuid_needs_five_entries() {
    let mut d = vec![0u8; 2000];
    for k in 0..4usize {
        put32(&mut d, 500 + k * 40, k as u32);
    }
    put32(&mut d, 660, 0x123);
    d[516..520].copy_from_slice(b"Genu");
    assert_eq!(collect_cpuid_entries(&d, 500, 40).len(), 4);
    assert!(parse_cpuid(&d).is_empty());
    put32(&mut d, 660, 0x80000008);
    put32(&mut d, 700, 0x80000021);
    assert_eq!(parse_cpuid(&d).len(), 5);
}

#[test]
fn cpuid_ends_where_the_function_falls() {
    let mut d = vec![0u8; 2000];
    for (k, f) in [0u32, 1, 0x80000000, 0x80000001, 0x80000001, 2, 3].iter().enumerate() {
        put32(&mut d, 500 + k * 40, *f);
    }
    d[516..520].copy_from_slice(b"Auth");
    let functions: Vec<u32> = parse_cpuid(&d).iter().map(|e| e.function).collect();
    assert_eq!(functions, vec![0, 1, 0x80000000, 0x80000001, 0x80000001]);
}

#[test]
fn queue_addresses() {
    assert!(valid_queue_addrs(0x100000, 0x101000, 0x102000));
    assert!(!valid_queue_addrs(0xff000, 0x100000, 0x101000));
    assert!(!valid_queue_addrs(0x100010, 0x101010, 0x102010));
    assert!(!valid_queue_addrs(0x100000, 0x102000, 0x103000));
    assert!(valid_queue_addrs(0x3fffe000, 0x3ffff000, 0x40000000));
    assert!(!valid_queue_addrs(0x3ffff000, 0x40000000, 0x40001000));
    let mut d = vec![0u8; 200];
    put64(&mut d, 50, 0x300000);
    put64(&mut d, 58, 0x301000);
    put64(&mut d, 66, 0x302000);
    assert_eq!(parse_virtio_queue_addrs(&d).unwrap().desc_table, 0x300000);
    assert!(parse_virtio_queue_addrs(&d[..74]).is_none());
    assert!(parse_virtio_queue_addrs(&[]).is_none());
}

#[test]
fn msr_filters() {
    let mut d = vec![0u8; 400];
    put32(&mut d, 0, 0xc0000081);
    put32(&mut d, 40, 0xc0000082);
    put64(&mut d, 48, 0x1000);
    put32(&mut d, 80, 0xc0000083);
    put32(&mut d, 120, 0x4b564d00);
    put64(&mut d, 128, 0x100000000);
    put32(&mut d, 160, 0x4b564d01);
    put64(&mut d, 168, 0x1234);
    put32(&mut d, 200, 0xc0000084);
    put32(&mut d, 204, 1);
    let m: Vec<(u32, u64)> = parse_msrs(&d).iter().map(|e| (e.index, e.data)).collect();
    assert_eq!(m, vec![(0xc0000083, 0), (0x4b564d01, 0x1234)]);
    assert_eq!(EFER, 2264);
}

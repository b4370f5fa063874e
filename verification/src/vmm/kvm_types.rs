//! CPU state of a vCPU as plain values, in the shapes that KVM takes it.

use vstd::prelude::*;

verus! {

/// General purpose registers.
#[derive(Clone, Copy, Debug, PartialEq, Eq)]
pub struct KvmRegs {
    pub rax: u64,
    pub rbx: u64,
    pub rcx: u64,
    pub rdx: u64,
    pub rsi: u64,
    pub rdi: u64,
    pub rsp: u64,
    pub rbp: u64,
    pub r8: u64,
    pub r9: u64,
    pub r10: u64,
    pub r11: u64,
    pub r12: u64,
    pub r13: u64,
    pub r14: u64,
    pub r15: u64,
    pub rip: u64,
    pub rflags: u64,
}

/// A segment register with its cached descriptor.
#[derive(Clone, Copy, Debug, PartialEq, Eq)]
pub struct KvmSegment {
    pub base: u64,
    pub limit: u32,
    pub selector: u16,
    pub type_: u8,
    pub present: u8,
    pub dpl: u8,
    pub db: u8,
    pub s: u8,
    pub l: u8,
    pub g: u8,
    pub avl: u8,
    pub unusable: u8,
    pub padding: u8,
}

/// A descriptor table register.
#[derive(Clone, Copy, Debug, PartialEq, Eq)]
pub struct KvmDtable {
    pub base: u64,
    pub limit: u16,
}

/// Segment, descriptor table and control registers.
#[derive(Clone, Copy, Debug, PartialEq, Eq)]
pub struct KvmSregs {
    pub cs: KvmSegment,
    pub ds: KvmSegment,
    pub es: KvmSegment,
    pub fs: KvmSegment,
    pub gs: KvmSegment,
    pub ss: KvmSegment,
    pub tr: KvmSegment,
    pub ldt: KvmSegment,
    pub gdt: KvmDtable,
    pub idt: KvmDtable,
    pub cr0: u64,
    pub cr2: u64,
    pub cr3: u64,
    pub cr4: u64,
    pub cr8: u64,
    pub efer: u64,
    pub apic_base: u64,
    pub interrupt_bitmap: [u64; 4],
}

/// A model specific register and its value.
#[derive(Clone, Copy, Debug, PartialEq, Eq)]
pub struct KvmMsrEntry {
    pub index: u32,
    pub reserved: u32,
    pub data: u64,
}

/// One CPUID leaf as the guest sees it.
#[derive(Clone, Copy, Debug, PartialEq, Eq)]
pub struct KvmCpuidEntry2 {
    pub function: u32,
    pub index: u32,
    pub flags: u32,
    pub eax: u32,
    pub ebx: u32,
    pub ecx: u32,
    pub edx: u32,
}

/// The register page of a local APIC.
#[derive(Clone, Copy, Debug, PartialEq, Eq)]
pub struct KvmLapicState {
    pub regs: [i8; 1024],
}

/// One extended control register.
#[derive(Clone, Copy, Debug, PartialEq, Eq)]
pub struct KvmXcr {
    pub xcr: u32,
    pub reserved: u32,
    pub value: u64,
}

/// The extended control registers; the first `nr_xcrs` entries count.
#[derive(Clone, Copy, Debug, PartialEq, Eq)]
pub struct KvmXcrs {
    pub nr_xcrs: u32,
    pub flags: u32,
    pub xcrs: [KvmXcr; 16],
}

/// The XSAVE area as 32-bit words.
#[derive(Clone, Copy, Debug, PartialEq, Eq)]
pub struct KvmXsave {
    pub region: [u32; 1024],
}

/// What `KvmXcrs` holds, with its array as a sequence.
#[verifier::ext_equal]
pub struct XcrsModel {
    pub nr_xcrs: u32,
    pub flags: u32,
    pub xcrs: Seq<KvmXcr>,
}

impl View for KvmLapicState {
    type V = Seq<i8>;

    open spec fn view(&self) -> Seq<i8> {
        self.regs@
    }
}

impl View for KvmXcrs {
    type V = XcrsModel;

    open spec fn view(&self) -> XcrsModel {
        XcrsModel { nr_xcrs: self.nr_xcrs, flags: self.flags, xcrs: self.xcrs@ }
    }
}

impl View for KvmXsave {
    type V = Seq<u32>;

    open spec fn view(&self) -> Seq<u32> {
        self.region@
    }
}

} // verus!

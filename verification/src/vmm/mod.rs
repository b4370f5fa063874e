//! The machine side: what a snapshot holds, and the devices of a forked VM.

pub mod guest_memory;
pub mod kvm_types;
pub mod layout_laws;
pub mod mmio_laws;
pub mod request_laws;
pub mod search_laws;
pub mod snapshot_laws;
pub mod virtio_blk;
pub mod virtio_blk_laws;
pub mod vmstate;
pub mod vmstate_laws;

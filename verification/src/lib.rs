//! The verified core of a microVM sandbox server.
//!
//! A sandbox is forked from a snapshot of a booted VM. This crate holds the
//! parts of that work that decide or compute: reading CPU and device state out
//! of a snapshot file, emulating the block device that each fork boots with,
//! and the rules of the HTTP API (who may call it, how often, and what a caller
//! is answered).

pub mod api;
pub mod bytes;
pub mod calendar;
pub mod scan;
pub mod text;
pub mod text_laws;
pub mod vmm;

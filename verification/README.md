# zeroboot

The verified core of a server that runs code in microVM sandboxes. A sandbox is
forked from a snapshot of a booted VM in well under a millisecond; every fork has
its own copy-on-write memory and disk.

- `src/vmm/` reads CPU and device state out of a Firecracker snapshot and emulates
  the virtio block device of a fork.
- `src/api/` holds the rules of the HTTP API: keys, rate limits, the steps of a run,
  metrics, health.
- `src/text.rs`, `src/calendar.rs`, `src/bytes.rs` and `src/scan.rs` are what both
  build on.
- `app/` is ordinary Rust around the library: HTTP handlers, JSON, reads of the base
  image, interrupt lines.

The files `*_laws.rs`, and the proof functions named `law_*` elsewhere, state what
holds across operations.

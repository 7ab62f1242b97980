# sher

A verified model of the SHER kernel's subsystems, written in Verus.

- `src/` is the library. Every function there is verified against its
  `requires` / `ensures` contract: memory allocators (byte budget, page
  tables, DMA buffers, per-CPU and per-socket slab caches), the task
  scheduler and interrupt controller, the Linux compatibility layer
  (validation, capabilities and their enforcement, interrupt and device
  translation), recovery (A/B partitions, boot pointer, health checks,
  crash recovery, watchdog), release management, security contexts,
  hardening (memory-safety and syscall auditing), drivers, GPU, input and
  hardware abstraction layers, networking, profiling and performance
  helpers. Public proof functions state the laws that hold across calls.
- `app/` is ordinary Rust around the library: figures in floating point,
  timed and threaded stress runs, benchmark runners, watchdog alert
  callbacks, kernel objects with telemetry, function-pointer health probes
  and the per-thread CPU context.
- `tests/` exercises the library from outside.

The one outside crate, `uuid`, supplies the random 128-bit values behind
fresh object identities (`ObjectId::new`); the library states of them only
that they are never zero.

The crate has no master allocator that would combine the two slab tiers and
the byte budget behind one interface, so stress runs driving such an
allocator are not part of it.

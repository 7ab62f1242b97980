//! Attack-surface reduction: memory-safety bookkeeping and system-call
//! filtering.
pub mod memory_safety;
pub mod syscall_hardening;

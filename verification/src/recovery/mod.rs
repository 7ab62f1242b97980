//! Immutable A/B system images, the boot pointer that switches between
//! them, boot-test health checks, crash recovery and heartbeat watchdog.
pub mod bootptr;
pub mod crash_recovery;
pub mod healthcheck;
pub mod partition;
pub mod watchdog;

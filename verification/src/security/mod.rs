//! Zero-trust security primitives: sandboxes, per-object capability
//! contexts and the audit log.
pub mod audit;
pub mod capabilities;
pub mod isolation;

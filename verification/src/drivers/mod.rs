//! Driver runtime prototype: discovery, class-to-driver matching and
//! sandboxed bring-up.
pub mod discovery;
pub mod registry;
pub mod sandbox;

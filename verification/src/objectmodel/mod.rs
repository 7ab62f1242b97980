//! The kernel object model: lifecycle state, time-bounded capability sets,
//! dependency lists and event counts of managed objects.
pub mod capabilities;
pub mod dependencies;
pub mod lifecycle;
pub mod telemetry;

//! Linux Kernel Interface: validation, translation and tracking of Linux
//! driver API calls onto SHER primitives.
pub mod device_compat;
pub mod device_translation;
pub mod enforcement;
pub mod interrupt_translation;
pub mod linux_api;
pub mod memory_compat;
pub mod security;
pub mod validation;

//! Interrupt registration and dispatch policy.
pub mod controller;
pub mod handler;

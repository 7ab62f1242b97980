use vstd::prelude::*;

pub mod common;
pub mod keyed;
pub mod scheduler;
pub mod interrupt;
pub mod memory;
pub mod bits;
pub mod lki;
pub mod text;
pub mod release;
pub mod recovery;
pub mod objectmodel;
pub mod security;
pub mod drivers;
pub mod hardening;
pub mod performance;
pub mod profiling;
pub mod networking;
pub mod runtime;
pub mod gpu_driver;
pub mod input_driver;
pub mod hal;
pub mod performance_benchmarks;


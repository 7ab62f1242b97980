//! Latency profiling of kernel operations.
pub mod profiler;
pub mod stress_test;

//! Heterogeneous compute scheduler: tasks, FIFO queues and a per-target
//! static-priority dispatcher.
pub mod heterogeneous;
pub mod queue;
pub mod scheduler;
pub mod task;

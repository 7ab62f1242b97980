//! Networking bookkeeping: device descriptors and an in-process stack with
//! MTU-checked send and receive counters.
pub mod device;
pub mod protocol;
pub mod stack;

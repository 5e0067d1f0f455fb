//! Durable-write benchmarking: size arguments and their sweeps, per-writer accounting,
//! and the latency and throughput samples gathered from the writers.
pub mod error;
pub mod human;
pub mod plot;
pub mod size;
pub mod stats;
pub mod sweep;
pub mod worker;

//! A bounded worker pool: a FIFO queue of pending work descriptors paired with
//! a fixed-size thread pool that runs one job per descriptor.

pub mod sizing;
pub mod task_queue;
pub mod identifier;
pub mod execution;
pub mod pool;

//! A single-threaded cooperative task runtime: the scheduling core.
//!
//! The library keeps the state of the run queue, of each task's shared
//! ownership and of the spawn context, and decides every transition of the
//! drive loop. The resumable computations themselves are held by the caller,
//! keyed by the task identifiers that this library hands out.
pub mod executor;
pub mod futures;
pub mod task;
pub mod waker;
pub mod laws;

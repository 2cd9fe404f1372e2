//! A verified migration pipeline for sorted key-value stores.
//!
//! The crate has two halves: a binary key codec (`keys`) whose big-endian
//! layout makes byte-lexicographic order agree with numeric order, and a
//! bounded-queue dispatch model (`pipeline`) that copies every record from a
//! source store into a destination store through a fixed pool of workers,
//! with backpressure and fail-fast error handling.

use vstd::prelude::*;

pub mod errors;
pub mod keys;
pub mod pipeline;
pub mod progress;

verus! {

/// Round-robin worker selection: the `count`-th record goes to worker
/// `count % worker_count`.
pub fn round_robin_worker(count: usize, worker_count: usize) -> (i: usize)
    requires
        worker_count > 0,
    ensures
        i == count % worker_count,
        i < worker_count,
{
    count % worker_count
}

} // verus!

//! A concurrency primitive that applies a fallible checker to a collection of
//! items and keeps the first success, or, when every item fails, one error
//! chosen uniformly at random among those observed.
//!
//! The verified core is the aggregation logic: the state machine that consumes
//! checker outcomes one at a time, stops at the first success, and performs
//! size-one reservoir sampling over the errors. The asynchronous plumbing
//! (channels, worker tasks) drives this core from outside the library.

use vstd::prelude::*;

pub mod aggregate;
mod rng;

verus! {

/// The number of workers the pool runs with: a bound of zero means one worker
/// per item, any other bound is taken as given.
pub open spec fn effective_workers(concurrent: usize, length: usize) -> usize {
    if concurrent == 0 {
        length
    } else {
        concurrent
    }
}

/// Normalizes the caller-supplied concurrency bound to the number of workers
/// actually spawned.
pub fn effective_concurrency(concurrent: usize, length: usize) -> (n: usize)
    ensures
        n == effective_workers(concurrent, length),
{
    if concurrent == 0 {
        length
    } else {
        concurrent
    }
}

/// A concurrency bound of zero stands for maximal parallelism: it selects
/// exactly as many workers as a bound equal to the item count would, so the
/// two configurations run the same pool.
pub proof fn lemma_zero_bound_full_pool(length: usize)
    ensures
        effective_workers(0, length) == effective_workers(length, length),
{
}

} // verus!

//! The size of the pool of workers on which pinned work runs.

use vstd::prelude::*;

verus! {

/// The number of workers for a machine: its available parallelism where that
/// is known, and never less than one.
pub open spec fn pool_size(available: Option<usize>) -> usize {
    match available {
        Some(count) => if count >= 1 {
            count
        } else {
            1
        },
        None => 1,
    }
}

/// The number of workers that the pool is made with.
pub fn worker_count(available: Option<usize>) -> (count: usize)
    ensures
        count == pool_size(available),
        count >= 1,
{
    match available {
        Some(count) => if count >= 1 {
            count
        } else {
            1
        },
        None => 1,
    }
}

} // verus!

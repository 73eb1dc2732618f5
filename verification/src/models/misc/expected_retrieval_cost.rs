//! Expected Retrieval Cost: the integer part.
//!
//! Records are placed on the sectors of a circular drum; the expected cost
//! weighs, for each pair of sectors, the rotational latency from one to the
//! other. The latency is computed here; the probabilities are real numbers.
use vstd::prelude::*;

verus! {

/// Number of sectors the head passes going from `source` to `target` on a
/// drum of `num_sectors` sectors, moving forward.
pub open spec fn latency(num_sectors: int, source: int, target: int) -> int {
    if source < target {
        target - source - 1
    } else {
        num_sectors - source + target - 1
    }
}

/// The rotational latency from sector `source` to sector `target`.
pub fn latency_distance(num_sectors: usize, source: usize, target: usize) -> (r: usize)
    requires
        source < num_sectors,
        target < num_sectors,
    ensures
        r == latency(num_sectors as int, source as int, target as int),
{
    if source < target {
        target - source - 1
    } else {
        num_sectors - source + target - 1
    }
}

} // verus!

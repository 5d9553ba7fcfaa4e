//! Random numbers, from the generator that `rand` keeps for each thread.

use rand::Rng;
use vstd::prelude::*;

verus! {

/// `rand::Rng::random_range` on `rand::rng()`, with the half-open range from
/// `low` to `high`: some number of that range. An empty range, on which the
/// call panics, is left out.
#[verifier::external_body]
pub(crate) fn random_range(low: i32, high: i32) -> (value: i32)
    requires
        low < high,
    ensures
        low <= value < high,
{
    rand::rng().random_range(low..high)
}

} // verus!

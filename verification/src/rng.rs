//! Trusted access to the process random number generator.

use vstd::prelude::*;

verus! {

/// Relies on `rand::random_range` over an integer range: a value uniformly
/// drawn from `[low, high)`; it panics only on an empty range, which the
/// precondition excludes.
#[verifier::external_body]
pub fn gen_range_i64(low: i64, high: i64) -> (r: i64)
    requires
        low < high,
    ensures
        low <= r < high,
{
    rand::random_range(low..high)
}

/// Relies on `rand::random` for `bool`: a coin flip; nothing is promised
/// of the outcome.
#[verifier::external_body]
pub fn random_bool() -> (r: bool) {
    rand::random::<bool>()
}

} // verus!

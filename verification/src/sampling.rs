//! The random draws that the verified code makes.

use rand::Rng;
use vstd::prelude::*;

verus! {

/// Draws an index below `bound` from the thread's random generator.
///
/// Calls `rand::Rng::gen_range(0, bound)` on `rand::thread_rng()`. The
/// generator documents that the value lies in `[low, high)` and that it panics
/// when `low >= high`; the contract claims that range and excludes a zero
/// bound. Nothing is claimed about which value is drawn.
#[verifier::external_body]
pub(crate) fn random_below(bound: usize) -> (r: usize)
    requires
        bound > 0,
    ensures
        r < bound,
{
    rand::thread_rng().gen_range(0, bound)
}

/// Flips a coin with the thread's random generator.
///
/// Calls `rand::Rng::gen::<bool>()` on `rand::thread_rng()`. Nothing is
/// claimed about the outcome.
#[verifier::external_body]
pub(crate) fn coin_flip() -> (heads: bool) {
    rand::thread_rng().gen::<bool>()
}

} // verus!

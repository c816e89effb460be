//! Random draws.
use vstd::prelude::*;
use rand::Rng;

verus! {

/// Relies on rand::Rng::gen_range (rand 0.7) on the thread-local generator:
/// a value in `[low, high)`; it panics when `low >= high`, which `requires`
/// rules out.
#[verifier::external_body]
pub(crate) fn draw(low: u64, high: u64) -> (r: u64)
    requires
        low < high,
    ensures
        low <= r < high,
{
    rand::thread_rng().gen_range(low, high)
}

} // verus!

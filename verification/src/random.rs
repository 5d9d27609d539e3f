//! Drawing random numbers.
use vstd::prelude::*;

verus! {

/// `rand::Rng::gen_range` on `rand::thread_rng()` with the range `low..high`:
/// a number drawn from `[low, high)`. The range must not be empty (the call
/// panics on an empty range).
#[verifier::external_body]
pub(crate) fn random_in_range(low: i64, high: i64) -> (r: i64)
    requires
        low < high,
    ensures
        low <= r < high,
{
    rand::Rng::gen_range(&mut rand::thread_rng(), low..high)
}

/// `rand::random::<u64>()`: any `u64`.
#[verifier::external_body]
pub(crate) fn random_u64() -> u64 {
    rand::random::<u64>()
}

} // verus!

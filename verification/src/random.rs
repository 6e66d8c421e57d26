//! The two draws that the placement of rooms and corridors is made of.

use rand::Rng;
use vstd::prelude::*;

verus! {

/// Calls `rand::Rng::gen_range` on the generator of the current thread, as
/// returned by `rand::thread_rng`. Assumed of it: the value lies in the
/// half-open range from `low` to `high`. The call panics unless
/// `low < high`, which is why that is required.
#[verifier::external_body]
pub(crate) fn random_range(low: i32, high: i32) -> (r: i32)
    requires
        low < high,
    ensures
        low <= r < high,
{
    rand::thread_rng().gen_range(low, high)
}

/// Calls `rand::random` for a `bool`. Nothing is assumed of what comes
/// back: either value may.
#[verifier::external_body]
pub(crate) fn coin_flip() -> bool {
    rand::random()
}

} // verus!

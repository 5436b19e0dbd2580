//! Random numbers.

use rand::Rng;
use vstd::prelude::*;

verus! {

/// Calls `rand::Rng::gen_range` on the generator of this thread: a number that
/// is at least `low` and below `high`. Which one is left to chance.
#[verifier::external_body]
pub(crate) fn random_between(low: u64, high: u64) -> (number: u64)
    requires
        low < high,
    ensures
        low <= number < high,
{
    rand::thread_rng().gen_range(low..high)
}

} // verus!

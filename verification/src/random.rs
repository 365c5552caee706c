//! The one source of randomness, behind a single trusted boundary. The
//! drawn values feed verified functions that are correct for every value
//! the contract admits; nothing else in the crate touches the generator.

use vstd::prelude::*;
use rand::Rng;

verus! {

/// Relies on `rand::thread_rng` and `rand::Rng::gen_range`: returns a
/// value drawn from the half-open range `lo..hi`. `gen_range` panics only
/// on an empty range, which the precondition rules out; of the drawn value
/// nothing more than its bounds can be promised.
#[verifier::external_body]
pub(crate) fn random_in_range(lo: i64, hi: i64) -> (r: i64)
    requires
        lo < hi,
    ensures
        lo <= r < hi,
{
    rand::thread_rng().gen_range(lo..hi)
}

} // verus!

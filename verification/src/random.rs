//! The source of chance for the randomized players.

use vstd::prelude::*;

verus! {

/// Calls `fastrand::usize(0..n)`, which returns a value drawn from the range
/// `0..n` (it panics on an empty range, hence `n > 0`). Which value comes back
/// rests on chance; only that it lies in the range is claimed.
#[verifier::external_body]
pub(crate) fn random_index(n: usize) -> (r: usize)
    requires
        n > 0,
    ensures
        r < n,
{
    fastrand::usize(0..n)
}

} // verus!

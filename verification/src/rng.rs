use vstd::prelude::*;
use rand::Rng;

verus! {

/// Relies on `rand::Rng::random_range` over an `i64` range: a sample from
/// the non-empty half-open range `lo..hi` lies in it (it panics only on an
/// empty range, which the precondition rules out).  Which value comes back
/// depends on the generator's state, so nothing more is stated.
#[verifier::external_body]
pub(crate) fn sample_in(lo: i64, hi: i64) -> (r: i64)
    requires
        lo < hi,
    ensures
        lo <= r < hi,
{
    rand::rng().random_range(lo..hi)
}

} // verus!

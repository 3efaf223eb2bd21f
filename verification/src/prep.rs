use vstd::prelude::*;

use rand::Rng;

verus! {

/// The preparation-time assigner: a bounded random estimate, in minutes,
/// for a newly created line item. Draws from a shared entropy source, so
/// two calls may disagree; every outcome lies in the advertised range.
///
/// Relies on rand's `thread_rng` and `Rng::gen_range`: sampling the
/// non-empty half-open range `5..16` returns a value at least 5 and
/// strictly below 16.
#[verifier::external_body]
pub(crate) fn assign_prep_time() -> (t: i64)
    ensures
        5 <= t <= 15,
{
    rand::thread_rng().gen_range(5..16)
}

} // verus!

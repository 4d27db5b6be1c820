//! The one source of chance.

use vstd::prelude::*;

verus! {

/// Largest upper bound that `random_below` accepts.
pub const MAX_RANGE: usize = 1_000_000;

/// A number drawn from `low` up to, and not including, `high`.
///
/// Calls `quad_rand::gen_range` on `usize`. That function divides a 32-bit random
/// number by 2^32, which gives a fraction below one, scales it to the width of the
/// interval, adds `low` and cuts off what follows the point. With bounds of at
/// most a million every step is exact in double precision, so the outcome is at
/// least `low` and below `high`. Nothing else is claimed of it: two calls may
/// differ.
#[verifier::external_body]
pub(crate) fn random_below(low: usize, high: usize) -> (r: usize)
    requires
        low < high <= MAX_RANGE,
    ensures
        low <= r < high,
{
    quad_rand::gen_range(low, high)
}

} // verus!

//! Trusted boundary to the `rand` crate: the two random draws the engine
//! needs, each stated only as far as randomness allows.

use vstd::prelude::*;
use rand::Rng;

verus! {

/// Relies on rand's `Rng::gen_range`: a uniform draw from `0..n`, which is
/// documented to lie in the given range and to panic only when the range is
/// empty.
#[verifier::external_body]
pub(crate) fn rand_below(n: u8) -> (r: u8)
    requires
        n > 0,
    ensures
        r < n,
{
    rand::thread_rng().gen_range(0..n)
}

/// Relies on rand's `Rng::gen_ratio`: returns `true` with probability 3/5.
/// Nothing is promised of a single draw.
#[verifier::external_body]
pub(crate) fn rand_spawn_is_small() -> (r: bool) {
    rand::thread_rng().gen_ratio(3, 5)
}

} // verus!

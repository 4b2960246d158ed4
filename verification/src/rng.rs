//! The crate's one random source, behind two small trusted wrappers. Both
//! policies and the synthetic workload draw through these, so a seedless
//! thread-local generator is taken fresh at each call, as the callers expect.

use vstd::prelude::*;
use rand::Rng;

verus! {

/// Relies on rand's `Rng::random_range` over `0..bound`: returns a value
/// uniformly distributed in `[0, bound)`, and panics only when the range is
/// empty. Nothing more can be promised of a random draw.
#[verifier::external_body]
pub(crate) fn random_index(bound: usize) -> (r: usize)
    requires
        bound > 0,
    ensures
        r < bound,
{
    let mut rng = rand::rng();
    rng.random_range(0..bound)
}

/// Relies on rand's `Rng::random_ratio`: returns true with probability
/// `num / den`, and panics only when `den == 0` or `num > den`. Of a random
/// boolean nothing holds for every outcome, so no more is stated.
#[verifier::external_body]
pub(crate) fn random_chance(num: u32, den: u32) -> bool
    requires
        0 < den,
        num <= den,
{
    let mut rng = rand::rng();
    rng.random_ratio(num, den)
}

} // verus!

//! Trusted boundary to the `rand` crate: the grid's pseudo-random source.

use rand::Rng;
use vstd::prelude::*;

verus! {

/// The process-local pseudo-random generator a grid owns. Declaring the type
/// lets a `TerrainGrid` hold one as a field; Verus sees nothing inside it.
#[verifier::external_type_specification]
#[verifier::external_body]
pub struct ExThreadRng(rand::rngs::ThreadRng);

/// Relies on `rand::thread_rng`: hands out the thread-local generator.
/// Nothing is promised of the draws made through it.
#[verifier::external_body]
pub(crate) fn fresh_rng() -> rand::rngs::ThreadRng {
    rand::thread_rng()
}

/// Relies on `rand::distributions::Uniform::new(0, n)` and `rand::Rng::sample`:
/// a draw from `Uniform(0, n)` lies in `[0, n)`. `Uniform::new` panics on an
/// empty range, so `n` must be positive.
#[verifier::external_body]
pub(crate) fn sample_below(rng: &mut rand::rngs::ThreadRng, n: usize) -> (r: usize)
    requires
        1 <= n,
    ensures
        r < n,
{
    rng.sample(rand::distributions::Uniform::new(0, n))
}

/// Relies on `rand::Rng::gen` with the `Standard` distribution on `bool`: a
/// fair coin. Which face comes up is promised nowhere.
#[verifier::external_body]
pub(crate) fn flip(rng: &mut rand::rngs::ThreadRng) -> bool {
    rng.gen::<bool>()
}

} // verus!

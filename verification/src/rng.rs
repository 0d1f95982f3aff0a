//! The randomness boundary: the engine itself is deterministic, and only
//! the random initial-population constructors draw from here. The
//! generator is seedable, so a fixed seed reproduces a board exactly.

use vstd::prelude::*;
use rand::Rng;
use rand::SeedableRng;

verus! {

#[verifier::external_type_specification]
#[verifier::external_body]
pub struct ExStdRng(rand::rngs::StdRng);

/// Relies on `rand::thread_rng` and `rand::Rng::gen`: a fresh seed from the
/// thread-local generator. Nothing is assumed of the value.
#[verifier::external_body]
pub(crate) fn entropy_seed() -> u64 {
    rand::thread_rng().gen()
}

/// Relies on `rand::SeedableRng::seed_from_u64`: a generator fully
/// determined by the seed. Nothing is assumed of the state itself.
#[verifier::external_body]
pub(crate) fn rng_from_seed(seed: u64) -> rand::rngs::StdRng {
    rand::rngs::StdRng::seed_from_u64(seed)
}

/// Relies on `rand::Rng::gen_range`: a draw from the generator, uniformly
/// distributed over `[0, bound)`. Nothing beyond the range is assumed of
/// any single draw.
#[verifier::external_body]
pub(crate) fn draw_below(rng: &mut rand::rngs::StdRng, bound: u64) -> (r: u64)
    requires
        bound > 0,
    ensures
        r < bound,
{
    rng.gen_range(0..bound)
}

} // verus!

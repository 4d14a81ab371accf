//! Trusted boundary to the `rand` crate: the standard pseudo-random
//! generator and the two ways the engine draws from it.

use rand::Rng;
use rand::SeedableRng;
use vstd::prelude::*;

verus! {

/// Declares `rand::rngs::StdRng` so that it can stand in fields and
/// signatures; the value is opaque to the verifier.
#[verifier::external_type_specification]
#[verifier::external_body]
pub struct ExStdRng(rand::rngs::StdRng);

/// Relies on `rand::SeedableRng::from_entropy`: builds a generator
/// seeded from the operating system's entropy source. Nothing can be
/// promised of the stream it will produce, and the call aborts only
/// if the operating system cannot supply entropy at all.
#[verifier::external_body]
pub(crate) fn rng_from_entropy() -> rand::rngs::StdRng {
    rand::rngs::StdRng::from_entropy()
}

/// Relies on `rand::SeedableRng::seed_from_u64`: builds a generator
/// from a caller-chosen seed. Nothing is promised of the stream it
/// will produce.
#[verifier::external_body]
pub(crate) fn rng_from_seed(seed: u64) -> rand::rngs::StdRng {
    rand::rngs::StdRng::seed_from_u64(seed)
}

/// Relies on `rand::Rng::gen_range` over `0..n`: returns a value of
/// the non-empty range, so the result is below `n`. Which value comes
/// back is left open.
#[verifier::external_body]
pub(crate) fn rng_below(rng: &mut rand::rngs::StdRng, n: usize) -> (r: usize)
    requires
        n > 0,
    ensures
        r < n,
{
    rng.gen_range(0..n)
}

} // verus!

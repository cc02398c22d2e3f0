use vstd::prelude::*;

use rand::Rng;
use rand::SeedableRng;

verus! {

/// The deterministic seeded generator that the host threads by reference
/// into every call that needs randomness; with a fixed seed a run is
/// reproducible.
#[verifier::external_type_specification]
#[verifier::external_body]
pub struct ExStdRng(rand::rngs::StdRng);

/// Relies on rand's `SeedableRng::seed_from_u64` for `StdRng`: builds a
/// generator whose output is a function of the seed alone.
#[verifier::external_body]
pub fn rng_from_seed(seed: u64) -> (r: rand::rngs::StdRng) {
    rand::rngs::StdRng::seed_from_u64(seed)
}

/// Relies on rand's `Rng::gen_range` on the range `0..n`: the draw lies in
/// that range, and the call panics only on an empty range, which the
/// precondition excludes. Nothing more is assumed of the value.
#[verifier::external_body]
pub fn rng_below(rng: &mut rand::rngs::StdRng, n: u32) -> (r: u32)
    requires
        n >= 1,
    ensures
        r < n,
{
    rng.gen_range(0..n)
}

} // verus!

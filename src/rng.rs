use vstd::prelude::*;
use ndarray_rand::rand::rngs::SmallRng;
use ndarray_rand::rand::{RngCore, SeedableRng};

verus! {

#[verifier::external_type_specification]
#[verifier::external_body]
pub struct ExSmallRng(SmallRng);

/// Relies on rand's `SeedableRng::seed_from_u64` for `SmallRng`: a generator
/// whose stream is fixed by the seed within one build.
#[verifier::external_body]
pub(crate) fn seeded_rng(seed: u64) -> SmallRng {
    SmallRng::seed_from_u64(seed)
}

/// Relies on rand's `RngCore::next_u64` for `SmallRng`: the next raw draw,
/// any `u64` value.
#[verifier::external_body]
pub(crate) fn next_draw(rng: &mut SmallRng) -> u64 {
    rng.next_u64()
}

} // verus!

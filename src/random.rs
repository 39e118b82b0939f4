use crate::item::Item;
use crate::shuffle::is_permutation;
use rand::rngs::StdRng;
use rand::seq::SliceRandom;
use rand::Rng;
use rand::SeedableRng;
use vstd::prelude::*;

verus! {

#[verifier::external_type_specification]
#[verifier::external_body]
pub struct ExStdRng(StdRng);

/// Relies on rand's `SeedableRng::seed_from_u64`: builds the generator that a
/// session draws from.
#[verifier::external_body]
pub(crate) fn seeded(seed: u64) -> StdRng {
    StdRng::seed_from_u64(seed)
}

/// Relies on rand's `Rng::gen_range`: a value of the half-open range `0..n`,
/// which panics on an empty range.
#[verifier::external_body]
pub(crate) fn draw_below(rng: &mut StdRng, n: usize) -> (r: usize)
    requires
        n > 0,
    ensures
        r < n,
{
    rng.gen_range(0..n)
}

/// Relies on rand's `Rng::gen_ratio`: a fair coin, `true` with probability 1/2.
#[verifier::external_body]
pub(crate) fn flip(rng: &mut StdRng) -> bool {
    rng.gen_ratio(1, 2)
}

/// Relies on rand's `SliceRandom::shuffle`: rearranges the slots in place.
#[verifier::external_body]
pub(crate) fn shuffle_uniformly(slots: &mut Vec<Option<Item>>, rng: &mut StdRng)
    ensures
        is_permutation(final(slots)@, old(slots)@),
{
    slots.as_mut_slice().shuffle(rng)
}

} // verus!

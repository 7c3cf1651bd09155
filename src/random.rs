use vstd::prelude::*;
use rand::Rng;
use rand::rngs::StdRng;

verus! {

#[verifier::external_type_specification]
#[verifier::external_body]
pub struct ExStdRng(rand::rngs::StdRng);

/// Relies on rand's `Rng::gen_ratio(1, 2)`: a fair coin flip.
#[verifier::external_body]
pub(crate) fn flip_coin(rng: &mut StdRng) -> (r: bool) {
    rng.gen_ratio(1, 2)
}

/// Relies on rand's `Rng::gen_range` over `0..bound`: a value drawn
/// uniformly below `bound`. An empty range would panic, hence `bound > 0`.
#[verifier::external_body]
pub(crate) fn draw_below(rng: &mut StdRng, bound: u64) -> (r: u64)
    requires
        bound > 0,
    ensures
        r < bound,
{
    rng.gen_range(0..bound)
}

} // verus!

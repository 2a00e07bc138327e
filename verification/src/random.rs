//! The random source of the sampler.

use rand::rngs::StdRng;
use rand::Rng;
use vstd::prelude::*;

verus! {

/// `rand::rngs::StdRng`, the generator that callers seed or fill from the
/// system's entropy. Nothing of its state is visible here.
#[verifier::external_type_specification]
#[verifier::external_body]
pub struct ExStdRng(StdRng);

/// `Clone::clone` of `StdRng`: a generator in the same state. Nothing is
/// claimed of it; the declaration lets a structure that holds a generator be
/// cloned.
pub assume_specification[ <StdRng as Clone>::clone ](rng: &StdRng) -> (copy: StdRng)
;

/// `Rng::gen_range` on the range `0..bound`: some number below `bound`.
/// Which one depends on the generator's state, of which nothing is said.
/// The call panics on an empty range, so `bound` must be positive.
#[verifier::external_body]
pub(crate) fn random_below(rng: &mut StdRng, bound: u64) -> (drawn: u64)
    requires
        bound > 0,
    ensures
        drawn < bound,
{
    rng.gen_range(0..bound)
}

} // verus!

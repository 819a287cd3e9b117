use rand::Rng;
use rand::rngs::StdRng;
use vstd::prelude::*;

verus! {

/// The seedable random generator that every random stage draws from.
#[verifier::external_type_specification]
#[verifier::external_body]
pub struct ExStdRng(StdRng);

/// Relies on rand::Rng::gen_range: a value drawn from `0..bound`, which panics
/// only on an empty range.
#[verifier::external_body]
pub(crate) fn draw_below(rng: &mut StdRng, bound: u64) -> (r: u64)
    requires
        0 < bound,
    ensures
        r < bound,
{
    rng.gen_range(0..bound)
}

} // verus!

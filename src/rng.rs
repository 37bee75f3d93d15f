use rand::Rng;
use vstd::prelude::*;

verus! {

/// The seedable generator that drives every random choice of the library.
#[verifier::external_type_specification]
#[verifier::external_body]
pub struct ExXoshiro256Plus(rand_xoshiro::Xoshiro256Plus);

/// Relies on rand::Rng::gen_range over `0..bound`: a value below `bound`;
/// it panics on an empty range, which `requires` leaves out.
#[verifier::external_body]
pub(crate) fn random_below(rng: &mut rand_xoshiro::Xoshiro256Plus, bound: usize) -> (r: usize)
    requires
        bound > 0,
    ensures
        r < bound,
{
    rng.gen_range(0..bound)
}

} // verus!

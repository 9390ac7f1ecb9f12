//! Randomness for level generation, drawn from the `rand` crate behind
//! trusted wrappers: the simulation itself only consumes plain bounded
//! integers.

use rand::Rng;
use vstd::prelude::*;

verus! {

/// Declares rand's thread-local generator handle so it can appear in
/// signatures; the simulation never looks inside it.
#[verifier::external_type_specification]
#[verifier::external_body]
pub struct ExThreadRng(rand::rngs::ThreadRng);

/// Relies on rand::Rng::gen_range over `0..bound`: a sample from a non-empty
/// half-open range is always below its upper end.  The draw is random, so
/// nothing more can be said of the result.
#[verifier::external_body]
pub(crate) fn rand_below(rng: &mut rand::rngs::ThreadRng, bound: u32) -> (r: u32)
    requires
        bound >= 1,
    ensures
        r < bound,
{
    rng.gen_range(0..bound)
}

} // verus!

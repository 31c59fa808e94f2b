//! The random source that scene construction and sampling draw from.

use vstd::prelude::*;

verus! {

/// `rand::rngs::SmallRng`, a small seedable generator. Its state is opaque
/// here: it is only carried to the places that draw from it.
#[verifier::external_type_specification]
#[verifier::external_body]
pub struct ExSmallRng(rand::rngs::SmallRng);

/// The generator that the library draws from.
pub type ActiveRng = rand::rngs::SmallRng;

/// Draws an index from `low..high` with `rand::Rng::gen_range`.
///
/// Trusted: `gen_range` panics on an empty range, which `requires` rules
/// out, and returns a value of the range it was given. Which value is not
/// stated: it depends on the generator's state.
#[verifier::external_body]
pub(crate) fn gen_range(rng: &mut ActiveRng, low: usize, high: usize) -> (r: usize)
    requires
        low < high,
    ensures
        low <= r < high,
{
    rand::Rng::gen_range(rng, low..high)
}

} // verus!

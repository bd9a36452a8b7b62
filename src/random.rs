//! The random source that every draw of the generator goes through.
use vstd::prelude::*;

verus! {

/// A seedable random number generator from `rand`; opaque to proofs.
#[verifier::external_type_specification]
#[verifier::external_body]
pub struct ExStdRng(rand::rngs::StdRng);

/// Relies on `rand::Rng::gen_range`: a value drawn from the half-open range `0..n`,
/// which must not be empty (the call panics on an empty range).
#[verifier::external_body]
pub(crate) fn draw_below(rng: &mut rand::rngs::StdRng, n: usize) -> (r: usize)
    requires
        n > 0,
    ensures
        r < n,
{
    rand::Rng::gen_range(rng, 0..n)
}

} // verus!

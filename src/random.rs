//! The random choices of the library, drawn from the thread-local generator
//! of `rand`.
use vstd::prelude::*;
use rand::seq::SliceRandom;
use rand::Rng;

verus! {

/// Relies on `SliceRandom::shuffle` of rand: it permutes the slice in place
/// by swaps, so the same values stay, each as often as before.
#[verifier::external_body]
pub(crate) fn shuffle_chars(values: &mut [char; 9])
    ensures
        final(values)@.to_multiset() == old(values)@.to_multiset(),
{
    values.shuffle(&mut rand::thread_rng());
}

/// Relies on `Rng::gen_range` of rand: a value of the half-open range
/// `0..bound`, which must not be empty.
#[verifier::external_body]
pub(crate) fn random_below(bound: u32) -> (r: u32)
    requires
        bound > 0,
    ensures
        r < bound,
{
    rand::thread_rng().gen_range(0..bound)
}

/// Relies on `Rng::gen_ratio` of rand: `true` with probability
/// `numerator / denominator`; never for a zero numerator, always when the
/// numerator equals the denominator.
#[verifier::external_body]
pub(crate) fn random_ratio(numerator: u32, denominator: u32) -> (r: bool)
    requires
        0 < denominator,
        numerator <= denominator,
    ensures
        numerator == 0 ==> !r,
        numerator == denominator ==> r,
{
    rand::thread_rng().gen_ratio(numerator, denominator)
}

} // verus!

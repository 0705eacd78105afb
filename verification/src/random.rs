//! The default source of randomness: the thread-local generator of `rand`.
//!
//! Nothing is proved about the values drawn beyond the two certain coins; the
//! carving procedures are verified for whatever comes back.

use vstd::prelude::*;

verus! {

/// `rand::rngs::ThreadRng`, a handle to the generator of the current thread.
/// Its state is not modelled.
#[verifier::external_type_specification]
#[verifier::external_body]
pub struct ExThreadRng(rand::rngs::ThreadRng);

/// `rand::thread_rng`: a handle to the generator of the current thread, which
/// is seeded from the operating system on first use (and gives up if the
/// system cannot provide a seed). Nothing is claimed of the handle.
#[verifier::external_body]
fn thread_rng() -> (rng: rand::rngs::ThreadRng) {
    rand::thread_rng()
}

/// `rand::Rng::gen_ratio`: a coin that shows `true` with probability
/// `numerator / denominator`. The call panics on a zero denominator and on a
/// ratio above one, which the precondition rules out. As documented there, a
/// ratio of one always gives `true` and a ratio of zero always `false`;
/// nothing else is claimed of the value drawn.
#[verifier::external_body]
fn gen_ratio(rng: &mut rand::rngs::ThreadRng, numerator: u32, denominator: u32) -> (coin: bool)
    requires
        0 < denominator,
        numerator <= denominator,
    ensures
        numerator == denominator ==> coin,
        numerator == 0 ==> !coin,
{
    rand::Rng::gen_ratio(rng, numerator, denominator)
}

/// `rand::Rng::gen` at type `usize`: a machine word drawn uniformly. Nothing
/// is claimed of the value drawn.
#[verifier::external_body]
fn gen_usize(rng: &mut rand::rngs::ThreadRng) -> (number: usize) {
    rand::Rng::gen::<usize>(rng)
}

/// Throws a coin that shows `true` in `numerator` of `denominator` cases, with
/// the generator of the current thread.
pub fn weighted_coin(numerator: u32, denominator: u32) -> (coin: bool)
    requires
        0 < denominator,
        numerator <= denominator,
    ensures
        numerator == denominator ==> coin,
        numerator == 0 ==> !coin,
{
    let mut rng = thread_rng();
    gen_ratio(&mut rng, numerator, denominator)
}

/// Throws a fair coin with the generator of the current thread.
pub(crate) fn fair_coin() -> (coin: bool) {
    weighted_coin(1, 2)
}

/// Draws a `usize` uniformly with the generator of the current thread.
pub(crate) fn any_number() -> (number: usize) {
    let mut rng = thread_rng();
    gen_usize(&mut rng)
}

} // verus!

//! Random draws. Nothing in this file is proved: each item states what the
//! `rand` crate documents, and the rest of the library is verified against
//! these statements.

use crate::color::Color;
use rand::rngs::ThreadRng;
use rand::seq::SliceRandom;
use rand::Rng;
use vstd::prelude::*;

verus! {

/// `rand::rngs::ThreadRng`, the handle to the thread-local generator. Its
/// inside is hidden from the verifier.
#[verifier::external_type_specification]
#[verifier::external_body]
pub struct ExThreadRng(rand::rngs::ThreadRng);

/// Calls `rand::thread_rng`, which hands out the thread-local generator.
/// Nothing is claimed of the handle. The call panics if the operating
/// system cannot seed the generator; no argument decides that.
#[verifier::external_body]
pub(crate) fn thread_generator() -> ThreadRng {
    rand::thread_rng()
}

/// Calls `rand::seq::SliceRandom::choose` on the colors. The claim: the
/// result is `None` exactly when there is no color to choose from, and
/// otherwise one of the given colors. Which one is not claimed.
#[verifier::external_body]
pub(crate) fn choose_color(colors: &Vec<Color>, rng: &mut ThreadRng) -> (picked: Option<Color>)
    ensures
        colors@.len() == 0 ==> picked is None,
        colors@.len() > 0 ==> picked is Some,
        picked matches Some(c) ==> colors@.contains(c),
{
    colors.choose(rng).copied()
}

/// Calls `rand::Rng::gen_range` on the half-open range from 0 to `bound`.
/// The claim: the result lies in that range. The call panics on an empty
/// range, which the precondition rules out.
#[verifier::external_body]
pub(crate) fn draw_below(rng: &mut ThreadRng, bound: i32) -> (n: i32)
    requires
        0 < bound,
    ensures
        0 <= n < bound,
{
    rng.gen_range(0..bound)
}

} // verus!

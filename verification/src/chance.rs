//! The unseeded random source behind every spawn and reset.
//!
//! These draws are not reproducible, so their contracts state only what holds of
//! every outcome.

use vstd::prelude::*;
use rand::seq::SliceRandom;
use rand::Rng;
use rand::RngCore;

verus! {

/// `rand::Rng::gen_range` on the thread's generator, for the half-open range
/// `low..high`. The outside function panics on an empty range, which the
/// precondition rules out; its result lies in the range.
#[verifier::external_body]
fn sample_range(low: i64, high: i64) -> (r: i64)
    requires
        low < high,
    ensures
        low <= r < high,
{
    rand::thread_rng().gen_range(low..high)
}

/// The toss of a coin: `rand::Rng::gen_ratio(1, 2)` on the thread's generator.
/// Nothing is claimed of the outcome.
#[verifier::external_body]
pub(crate) fn flip() -> (heads: bool) {
    rand::thread_rng().gen_ratio(1, 2)
}

/// A fresh 64-bit seed: `rand::RngCore::next_u64` on the thread's generator.
/// Nothing is claimed of the outcome.
#[verifier::external_body]
pub(crate) fn fresh_seed() -> (seed: u64) {
    rand::thread_rng().next_u64()
}

/// `rand::seq::SliceRandom::choose` with the thread's generator. The outside
/// function returns nothing for an empty slice, which the precondition rules
/// out, and else one of the slice's elements.
#[verifier::external_body]
fn sample_choice(options: &Vec<(i64, i64)>) -> (r: (i64, i64))
    requires
        options.len() > 0,
    ensures
        options@.contains(r),
{
    *options.choose(&mut rand::thread_rng()).unwrap()
}

/// One of `options`, or nothing where there are none.
pub fn pick(options: &Vec<(i64, i64)>) -> (r: Option<(i64, i64)>)
    ensures
        r is None <==> options.len() == 0,
        r is Some ==> options@.contains(r.unwrap()),
{
    if options.len() > 0 {
        Some(sample_choice(options))
    } else {
        None
    }
}

/// A value drawn from `low..high`; `low` itself where the range is empty.
pub fn draw_between(low: i64, high: i64) -> (r: i64)
    ensures
        low < high ==> low <= r < high,
        low >= high ==> r == low,
{
    if low < high {
        sample_range(low, high)
    } else {
        low
    }
}

} // verus!

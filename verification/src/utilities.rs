//! Sampling: whether a command runs on a given invocation.

use rand::Rng;
use vstd::prelude::*;

verus! {

#[verifier::external_type_specification]
#[verifier::external_body]
pub struct ExPercentageInteger(percentage::PercentageInteger);

#[verifier::external_type_specification]
#[verifier::external_body]
pub struct ExThreadRng(rand::rngs::ThreadRng);

/// The whole number, from 0 to 100, that a percentage holds.
pub uninterp spec fn percent_of(percent: &percentage::PercentageInteger) -> u8;

/// Calls `percentage::Percentage::from`, which keeps the number given and
/// refuses one above 100.
#[verifier::external_body]
pub(crate) fn percent_from(value: u8) -> (percent: percentage::PercentageInteger)
    requires
        value <= 100,
    ensures
        percent_of(&percent) == value,
{
    percentage::Percentage::from(value)
}

/// Calls `percentage::PercentageInteger::value`: the number that the
/// percentage was made from, which is at most 100.
#[verifier::external_body]
pub(crate) fn percent_value(percent: &percentage::PercentageInteger) -> (value: u8)
    ensures
        value == percent_of(percent),
        value <= 100,
{
    percent.value()
}

/// Calls `rand::thread_rng`: this thread's random number generator.
#[verifier::external_body]
pub(crate) fn local_rng() -> (rng: rand::rngs::ThreadRng) {
    rand::thread_rng()
}

/// Calls `rand::Rng::gen_range` with the bounds 0 and 100: a number drawn
/// from 0 up to, and not including, 100.
#[verifier::external_body]
pub(crate) fn draw_hundred(rng: &mut rand::rngs::ThreadRng) -> (draw: u8)
    ensures
        draw < 100,
{
    rng.gen_range(0, 100)
}

/// Whether a command with the given percentage runs when the given number
/// was drawn: it does where the number is below the percentage.
pub open spec fn hit(percent: u8, draw: u8) -> bool {
    percent > draw
}

/// Decides, for a percentage and a number drawn from 0 to 99, whether the
/// command runs. At 100 it always does, at 0 it never does.
pub fn should_execute(percent: u8, draw: u8) -> (run: bool)
    ensures
        run == hit(percent, draw),
        percent >= 100 && draw < 100 ==> run,
        percent == 0 ==> !run,
{
    percent > draw
}

/// Draws a number and decides whether a command with the given percentage
/// runs this time.
pub fn percent_hit(rng: &mut rand::rngs::ThreadRng, percent: &percentage::PercentageInteger) -> (run:
    bool)
    ensures
        percent_of(percent) == 100 ==> run,
        percent_of(percent) == 0 ==> !run,
{
    let draw: u8 = draw_hundred(rng);
    should_execute(percent_value(percent), draw)
}

} // verus!

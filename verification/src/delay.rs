//! How long a task that found nothing to do waits before it looks again.
use vstd::prelude::*;

verus! {

/// Waits are shorter than this, in milliseconds.
pub const DELAY_LIMIT: u64 = 10;

/// Calls `rand::random` for a `u64`.
///
/// Nothing is believed of the number: any may come.
#[verifier::external_body]
fn random() -> u64 {
    rand::random::<u64>()
}

/// Whether this number is one that a call of `random` gave: no other value is known to be one.
pub closed spec fn drawn(number: u64) -> bool {
    call_ensures(random, (), number)
}

/// What calling `f` gives.
fn called<F: Fn() -> u64>(f: F) -> (r: u64)
    requires
        f.requires(()),
    ensures
        f.ensures((), r),
{
    f()
}

/// The wait that a number stands for.
pub open spec fn wait_of(number: u64) -> u64 {
    number % DELAY_LIMIT
}

/// The wait that a random number stands for, in milliseconds.
pub fn delay_of(random: u64) -> (millis: u64)
    ensures
        millis == random % DELAY_LIMIT,
        millis == wait_of(random),
        millis < DELAY_LIMIT,
{
    random % DELAY_LIMIT
}

/// A random wait, in milliseconds.
pub fn delay() -> (millis: u64)
    ensures
        millis < DELAY_LIMIT,
        exists|number: u64| #[trigger] drawn(number) && millis == number % DELAY_LIMIT,
{
    let number: u64 = called(random);
    assert(drawn(number));
    delay_of(number)
}

} // verus!

//! The only places where the library draws randomness: thin trusted fronts
//! for the system random-number generator.

use vstd::prelude::*;

verus! {

/// Relies on rand::random_range over `1 ..= sides` (rand's free function,
/// backed by the thread-local generator): it panics on an empty range and
/// otherwise returns a value drawn from inside the range.
#[verifier::external_body]
pub(crate) fn roll_die(sides: u32) -> (r: u32)
    requires
        1 <= sides,
    ensures
        1 <= r <= sides,
{
    rand::random_range(1..=sides)
}

/// Relies on rand::random_range over `0 .. bound`: it panics on an empty
/// range and otherwise returns a value drawn from inside the range.
#[verifier::external_body]
pub(crate) fn random_below(bound: u32) -> (r: u32)
    requires
        1 <= bound,
    ensures
        r < bound,
{
    rand::random_range(0..bound)
}

} // verus!

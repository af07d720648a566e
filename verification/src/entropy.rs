//! The source of randomness: the thread-local generator of the `rand` crate.
//!
//! Nothing here is proved. Each function states only what holds of every
//! value the generator can hand back.

use rand::Rng;
use vstd::prelude::*;

use crate::ring::Value;

verus! {

/// Draws a mask from the whole range of values.
///
/// Calls `rand::Rng::gen` on `rand::thread_rng()`. The result can be any
/// value, so nothing is claimed of it. The generator seeds itself from the
/// operating system on first use and panics if the system gives it no seed.
#[verifier::external_body]
pub(crate) fn draw_mask() -> Value {
    rand::thread_rng().gen()
}

/// Draws a value from the half-open range `low..high`.
///
/// Calls `rand::Rng::gen_range` on `rand::thread_rng()`, which panics on an
/// empty range and otherwise returns a value that is at least `low` and less
/// than `high`. The generator seeds itself from the operating system on
/// first use and panics if the system gives it no seed.
#[verifier::external_body]
pub(crate) fn draw_in_range(low: Value, high: Value) -> (r: Value)
    requires
        low < high,
    ensures
        low <= r < high,
{
    rand::thread_rng().gen_range(low..high)
}

} // verus!

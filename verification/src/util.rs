//! Utility functions for working with the chip's 40-bit clock.

use vstd::prelude::*;
use crate::time::TIME_MAX;

verus! {

/// The duration between two 40-bit timestamps, allowing for one wrap of the
/// hardware counter: `later - earlier` if `later >= earlier`, and otherwise
/// the distance that remains when the counter has wrapped once.
pub open spec fn spec_duration_between(earlier: u64, later: u64) -> int {
    if later >= earlier {
        later - earlier
    } else {
        TIME_MAX - earlier + later + 1
    }
}

/// Determines the duration between two time stamps.
///
/// Expects two 40-bit system time stamps and returns the duration between the
/// two, taking potential overflow into account.
pub fn duration_between(earlier: u64, later: u64) -> (r: u64)
    requires
        earlier <= TIME_MAX,
        later <= TIME_MAX,
    ensures
        r == spec_duration_between(earlier, later),
        r <= TIME_MAX,
{
    if later >= earlier {
        later - earlier
    } else {
        TIME_MAX - earlier + later + 1
    }
}

/// The duration between a timestamp and itself is zero, whether or not the
/// counter wrapped in between readings of other pairs.
pub proof fn lemma_duration_between_same(x: u64)
    requires
        x <= TIME_MAX,
    ensures
        spec_duration_between(x, x) == 0,
{
}

/// An error that can be a timeout or another error.
#[derive(Debug)]
pub enum TimeoutError<T> {
    /// The operation timed out
    Timeout,
    /// Another error occured
    Other(T),
}

} // verus!

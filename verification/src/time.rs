//! Instants and durations on the chip's 40-bit wrapping system clock.
//!
//! Hardware timestamps are unsigned magnitudes that fit in 40 bits. Both
//! [`Instant`] and [`Duration`] refuse construction from a wider value;
//! arithmetic between instants wraps modulo 2^40 (see
//! [`crate::util::duration_between`]).

use vstd::prelude::*;

verus! {

/// The largest value a hardware timestamp can take: 2^40 - 1.
pub const TIME_MAX: u64 = 0xFF_FFFF_FFFF;

/// A point in time, as reported by the chip's 40-bit system clock.
#[derive(Clone, Copy, Debug, PartialEq, Eq, Structural)]
pub struct Instant {
    value: u64,
}

/// A span of time on the chip's 40-bit system clock.
#[derive(Clone, Copy, Debug, PartialEq, Eq, Structural)]
pub struct Duration {
    value: u64,
}

impl Instant {
    /// The timestamp this instant stands for.
    pub closed spec fn spec_value(self) -> u64 {
        self.value
    }

    /// Every instant holds a magnitude that fits in 40 bits.
    #[verifier::type_invariant]
    pub open spec fn wf(self) -> bool {
        self.spec_value() <= TIME_MAX
    }

    /// Creates an instant, refusing a value that does not fit in 40 bits.
    pub fn new(value: u64) -> (r: Option<Instant>)
        ensures
            r is Some <==> value <= TIME_MAX,
            r is Some ==> r->0.wf() && r->0.spec_value() == value,
    {
        if value <= TIME_MAX {
            Some(Instant { value })
        } else {
            None
        }
    }

    /// The raw 40-bit timestamp.
    pub fn value(self) -> (r: u64)
        ensures
            r == self.spec_value(),
    {
        self.value
    }
}

impl Duration {
    /// The magnitude this duration stands for.
    pub closed spec fn spec_value(self) -> u64 {
        self.value
    }

    /// Every duration holds a magnitude that fits in 40 bits.
    #[verifier::type_invariant]
    pub open spec fn wf(self) -> bool {
        self.spec_value() <= TIME_MAX
    }

    /// Creates a duration, refusing a value that does not fit in 40 bits.
    pub fn new(value: u64) -> (r: Option<Duration>)
        ensures
            r is Some <==> value <= TIME_MAX,
            r is Some ==> r->0.wf() && r->0.spec_value() == value,
    {
        if value <= TIME_MAX {
            Some(Duration { value })
        } else {
            None
        }
    }

    /// The raw 40-bit magnitude.
    pub fn value(self) -> (r: u64)
        ensures
            r == self.spec_value(),
    {
        self.value
    }
}

} // verus!

//! Lengths of time.

use vstd::prelude::*;

verus! {

/// A length of time in whole nanoseconds.
#[derive(Debug, Clone, Copy, PartialEq, Eq, Structural)]
pub struct Duration {
    pub nanos: u128,
}

impl Duration {
    /// `secs` whole seconds.
    pub fn from_secs(secs: u64) -> (d: Duration)
        ensures
            d.nanos == secs * 1_000_000_000,
    {
        Duration { nanos: secs as u128 * 1_000_000_000 }
    }

    /// `millis` whole milliseconds.
    pub fn from_millis(millis: u64) -> (d: Duration)
        ensures
            d.nanos == millis * 1_000_000,
    {
        Duration { nanos: millis as u128 * 1_000_000 }
    }

    /// No time at all.
    pub fn zero() -> (d: Duration)
        ensures
            d.nanos == 0,
    {
        Duration { nanos: 0 }
    }

    /// Whether this is no time at all.
    pub fn is_zero(&self) -> (r: bool)
        ensures
            r == (self.nanos == 0),
    {
        self.nanos == 0
    }

    /// The whole milliseconds in this time.
    pub fn as_millis(&self) -> (n: u128)
        ensures
            n == self.nanos / 1_000_000,
    {
        self.nanos / 1_000_000
    }

    /// The whole seconds in this time.
    pub fn as_secs(&self) -> (n: u128)
        ensures
            n == self.nanos / 1_000_000_000,
    {
        self.nanos / 1_000_000_000
    }

    /// The shorter of the two.
    pub fn min(self, other: Duration) -> (d: Duration)
        ensures
            d.nanos == if self.nanos <= other.nanos { self.nanos } else { other.nanos },
    {
        if self.nanos <= other.nanos {
            self
        } else {
            other
        }
    }

    /// What is left of this time after `other`; nothing where `other` is longer.
    pub fn saturating_sub(self, other: Duration) -> (d: Duration)
        ensures
            d.nanos == if self.nanos >= other.nanos { self.nanos - other.nanos } else { 0 },
    {
        if self.nanos >= other.nanos {
            Duration { nanos: self.nanos - other.nanos }
        } else {
            Duration { nanos: 0 }
        }
    }

    /// Both times together, as far as they can be represented.
    pub fn saturating_add(self, other: Duration) -> (d: Duration)
        ensures
            d.nanos == if self.nanos + other.nanos <= u128::MAX { self.nanos + other.nanos } else { u128::MAX as int },
    {
        if self.nanos <= u128::MAX - other.nanos {
            Duration { nanos: self.nanos + other.nanos }
        } else {
            Duration { nanos: u128::MAX }
        }
    }
}

} // verus!

//! Points and spans on the timer clock, counted in nanoseconds.

use vstd::prelude::*;

verus! {

/// The largest span that a [`Duration`] holds: `u64::MAX` seconds plus
/// 999,999,999 nanoseconds, counted in nanoseconds.
pub const MAX_DURATION_NANOS: u128 = 18_446_744_073_709_551_615_999_999_999u128;

/// The latest instant the clock holds: `i64::MAX` seconds plus 999,999,999
/// nanoseconds after its origin, counted in nanoseconds.
pub const MAX_INSTANT_NANOS: u128 = 9_223_372_036_854_775_807_999_999_999u128;

/// A point on the timer clock: nanoseconds since the clock's origin, at most
/// [`MAX_INSTANT_NANOS`] for the instants the clock computes.
#[derive(Clone, Copy, Debug, PartialEq, Eq, Structural)]
pub struct Instant {
    pub nanos: u128,
}

/// A span of time in nanoseconds, at most [`MAX_DURATION_NANOS`].
#[derive(Clone, Copy, Debug, PartialEq, Eq, Structural)]
pub struct Duration {
    pub nanos: u128,
}

impl Instant {
    /// The instant `nanos` nanoseconds after the clock's origin.
    pub fn from_nanos(nanos: u128) -> (r: Instant)
        ensures
            r.nanos == nanos,
    {
        Instant { nanos }
    }

    /// Nanoseconds since the clock's origin.
    pub fn as_nanos(&self) -> (r: u128)
        ensures
            r == self.nanos,
    {
        self.nanos
    }

    /// `self + duration`, or `None` when the sum leaves the clock's range.
    pub fn checked_add(&self, duration: Duration) -> (r: Option<Instant>)
        ensures
            r == (if self.nanos + duration.nanos <= MAX_INSTANT_NANOS {
                Some(Instant { nanos: (self.nanos + duration.nanos) as u128 })
            } else {
                None::<Instant>
            }),
    {
        if self.nanos <= MAX_INSTANT_NANOS && duration.nanos <= MAX_INSTANT_NANOS - self.nanos {
            Some(Instant { nanos: self.nanos + duration.nanos })
        } else {
            None
        }
    }

    /// The span from `earlier` to `self`, or zero when `earlier` is later.
    pub fn saturating_duration_since(&self, earlier: Instant) -> (r: Duration)
        ensures
            r.nanos == (if earlier.nanos <= self.nanos {
                self.nanos - earlier.nanos
            } else {
                0
            }),
    {
        if earlier.nanos <= self.nanos {
            Duration { nanos: self.nanos - earlier.nanos }
        } else {
            Duration { nanos: 0 }
        }
    }
}

impl Duration {
    /// The empty span.
    pub fn zero() -> (r: Duration)
        ensures
            r.nanos == 0,
    {
        Duration { nanos: 0 }
    }

    /// The largest span, [`MAX_DURATION_NANOS`] nanoseconds.
    pub fn max_value() -> (r: Duration)
        ensures
            r.nanos == MAX_DURATION_NANOS,
    {
        Duration { nanos: MAX_DURATION_NANOS }
    }

    /// A span of `nanos` nanoseconds.
    pub fn from_nanos(nanos: u64) -> (r: Duration)
        ensures
            r.nanos == nanos,
    {
        Duration { nanos: nanos as u128 }
    }

    /// A span of `micros` microseconds.
    pub fn from_micros(micros: u64) -> (r: Duration)
        ensures
            r.nanos == micros * 1_000,
    {
        Duration { nanos: micros as u128 * 1_000 }
    }

    /// A span of `millis` milliseconds.
    pub fn from_millis(millis: u64) -> (r: Duration)
        ensures
            r.nanos == millis * 1_000_000,
    {
        Duration { nanos: millis as u128 * 1_000_000 }
    }

    /// A span of `secs` seconds.
    pub fn from_secs(secs: u64) -> (r: Duration)
        ensures
            r.nanos == secs * 1_000_000_000,
    {
        Duration { nanos: secs as u128 * 1_000_000_000 }
    }

    /// The whole number of nanoseconds in the span.
    pub fn as_nanos(&self) -> (r: u128)
        ensures
            r == self.nanos,
    {
        self.nanos
    }

    /// Whether the span is empty.
    pub fn is_zero(&self) -> (r: bool)
        ensures
            r == (self.nanos == 0),
    {
        self.nanos == 0
    }

    /// `self * factor`, saturating at [`MAX_DURATION_NANOS`].
    pub fn saturating_mul(&self, factor: u32) -> (r: Duration)
        ensures
            r.nanos == (if self.nanos * factor <= MAX_DURATION_NANOS {
                self.nanos * factor
            } else {
                MAX_DURATION_NANOS as int
            }),
    {
        match self.nanos.checked_mul(factor as u128) {
            Some(product) => {
                if product <= MAX_DURATION_NANOS {
                    Duration { nanos: product }
                } else {
                    Duration { nanos: MAX_DURATION_NANOS }
                }
            },
            None => {
                proof {
                    assert(self.nanos * factor > u128::MAX);
                }
                Duration { nanos: MAX_DURATION_NANOS }
            },
        }
    }
}

} // verus!

//! Errors that the library's own checks report.

use vstd::prelude::*;

verus! {

/// Why a timer operation was refused.
#[derive(Clone, Copy, Debug, PartialEq, Eq, Structural)]
pub enum TimerError {
    /// `sleep`: the deadline lies beyond the clock's range.
    SleepOutOfRange,
    /// `DelayQueue::try_insert`: the deadline lies beyond the clock's range.
    DelayOutOfRange,
    /// A relative due time does not fit the waitable-timer's 100 ns counter.
    DueTimeOutOfRange,
    /// A timer read returned fewer bytes than an expiration count holds.
    IncompleteRead,
    /// A read buffer has less room than an expiration count needs.
    ShortBuffer,
}

} // verus!

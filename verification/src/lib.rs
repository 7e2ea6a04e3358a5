//! Verified core of a timer library for Tokio.
//!
//! The library decides; the caller performs. [`Delay`], [`Interval`] and
//! [`DelayQueue`] hold the state of a one-shot delay, a periodic schedule and
//! a queue of delayed values, each with a [`Timer`] that says when the
//! operating-system timer behind it has to be armed or disarmed. Every
//! decision takes the current time as an argument, on a clock counted in
//! nanoseconds ([`Instant`], [`Duration`]).

use vstd::prelude::*;

pub mod delay;
pub mod delay_queue;
pub mod error;
pub mod interval;
pub mod slots;
pub mod time;
pub mod timer;

pub use delay::Delay;
pub use delay_queue::{DelayQueue, Expired, Key, QueueStep, Removal};
pub use error::TimerError;
pub use interval::{Interval, Tick};
pub use time::{Duration, Instant, MAX_DURATION_NANOS, MAX_INSTANT_NANOS};
pub use timer::{ArmPlan, Expiry, KeventOutcome, Timer, TimerUnits};

verus! {

/// Tries to create a delay for `deadline`: the deadline that the system
/// clock gives for the current time plus the sleep's duration, or `None`
/// where the clock cannot hold that sum. A missing deadline is refused.
pub fn try_sleep(deadline: Option<Instant>) -> (r: Result<Delay, TimerError>)
    ensures
        match r {
            Ok(delay) => {
                &&& deadline == Some(delay.deadline_spec())
                &&& !delay.initialized_spec()
                &&& delay.timer_spec() == timer::idle_timer()
            },
            Err(e) => {
                &&& deadline is None
                &&& e == TimerError::SleepOutOfRange
            },
        },
{
    match deadline {
        Some(deadline) => Ok(Delay::new(deadline)),
        None => Err(TimerError::SleepOutOfRange),
    }
}

/// Creates a delay for `deadline`, the system clock's current time plus the
/// sleep's duration, which the clock must hold.
pub fn sleep(deadline: Option<Instant>) -> (r: Delay)
    requires
        deadline is Some,
    ensures
        deadline == Some(r.deadline_spec()),
        !r.initialized_spec(),
        r.timer_spec() == timer::idle_timer(),
{
    Delay::new(deadline.unwrap())
}

/// The size in bytes of the expiration count that a timer read returns.
pub const EXPIRATION_COUNT_LEN: usize = 8;

/// What to do after a `read` of a timer descriptor.
#[derive(Clone, Copy, Debug, PartialEq, Eq, Structural)]
pub enum ReadOutcome {
    /// The whole expiration count was read.
    Count,
    /// The call was interrupted by a signal: read again.
    Retry,
    /// The call failed: report the system error.
    Failed,
    /// Fewer bytes than an expiration count arrived.
    Incomplete,
}

/// Classifies the value `returned` by a `read` of a timer descriptor, where
/// `interrupted` says whether a failed call was interrupted by a signal.
pub fn classify_read(returned: isize, interrupted: bool) -> (r: ReadOutcome)
    ensures
        r == (if returned == EXPIRATION_COUNT_LEN as isize {
            ReadOutcome::Count
        } else if returned < 0 {
            if interrupted { ReadOutcome::Retry } else { ReadOutcome::Failed }
        } else {
            ReadOutcome::Incomplete
        }),
{
    if returned == EXPIRATION_COUNT_LEN as isize {
        ReadOutcome::Count
    } else if returned < 0 {
        if interrupted {
            ReadOutcome::Retry
        } else {
            ReadOutcome::Failed
        }
    } else {
        ReadOutcome::Incomplete
    }
}

/// Checks that a read buffer with `remaining` bytes of room can take an
/// expiration count.
pub fn check_read_buffer(remaining: usize) -> (r: Result<(), TimerError>)
    ensures
        r == (if remaining < EXPIRATION_COUNT_LEN {
            Err::<(), TimerError>(TimerError::ShortBuffer)
        } else {
            Ok::<(), TimerError>(())
        }),
{
    if remaining < EXPIRATION_COUNT_LEN {
        Err(TimerError::ShortBuffer)
    } else {
        Ok(())
    }
}

} // verus!

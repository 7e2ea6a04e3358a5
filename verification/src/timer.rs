//! The timer that every delay, interval and queue owns, as a state machine.
//!
//! A [`Timer`] records the deadline it was last armed for and whether the
//! operating-system backend is currently armed. Its methods decide what the
//! backend has to do; the caller performs those steps and reports back.

use vstd::prelude::*;
use crate::time::{Instant, Duration};
use crate::error::TimerError;

verus! {

/// The decisions of a [`Timer`] about one deadline.
#[derive(Clone, Copy, Debug, PartialEq, Eq, Structural)]
pub struct Timer {
    /// The deadline the timer was last armed for, until it expires or is disarmed.
    pub deadline: Option<Instant>,
    /// Whether the backend timer is armed for `deadline`.
    pub armed: bool,
}

/// What the backend must do to arm a [`Timer`]: first disarm, if
/// `disarm_backend`, then arm for the deadline, if `arm_backend`.
#[derive(Clone, Copy, Debug, PartialEq, Eq, Structural)]
pub struct ArmPlan {
    pub disarm_backend: bool,
    pub arm_backend: bool,
}

/// The outcome of checking a [`Timer`] for expiry.
#[derive(Clone, Copy, Debug, PartialEq, Eq, Structural)]
pub enum Expiry {
    /// No deadline is set: the timer never fires.
    Unset,
    /// The deadline has been reached; the timer is reset.
    Elapsed,
    /// The deadline lies ahead: the backend decides whether it has fired.
    Backend,
}

/// The timer with no deadline and a disarmed backend.
pub open spec fn idle_timer() -> Timer {
    Timer { deadline: None, armed: false }
}

/// What [`Timer::arm`] does: the new state and the backend's steps.
pub open spec fn arm_spec(timer: Timer, deadline: Instant, now: Instant) -> (Timer, ArmPlan) {
    if timer.deadline == Some(deadline) && timer.armed {
        (timer, ArmPlan { disarm_backend: false, arm_backend: false })
    } else {
        let arm_backend = now.nanos < deadline.nanos;
        (
            Timer { deadline: Some(deadline), armed: arm_backend },
            ArmPlan { disarm_backend: timer.armed, arm_backend },
        )
    }
}

/// What [`Timer::poll_expired`] does: the new state and the outcome.
pub open spec fn poll_spec(timer: Timer, now: Instant) -> (Timer, Expiry) {
    match timer.deadline {
        None => (timer, Expiry::Unset),
        Some(d) => if d.nanos <= now.nanos {
            (idle_timer(), Expiry::Elapsed)
        } else {
            (timer, Expiry::Backend)
        },
    }
}

/// Whether the backend is armed after it carried out `plan`, having been
/// armed before exactly when `was_armed`.
pub open spec fn backend_after(was_armed: bool, plan: ArmPlan) -> bool {
    if plan.arm_backend {
        true
    } else if plan.disarm_backend {
        false
    } else {
        was_armed
    }
}

impl Timer {
    /// A timer with no deadline.
    pub fn new() -> (r: Timer)
        ensures
            r == idle_timer(),
    {
        Timer { deadline: None, armed: false }
    }

    /// Arms the timer for `deadline`, `now` being the current time.
    ///
    /// Re-arming for the deadline the backend is already armed for changes
    /// nothing. Otherwise an armed backend is disarmed first, the deadline is
    /// recorded, and the backend is armed only for a deadline in the future.
    pub fn arm(&mut self, deadline: Instant, now: Instant) -> (plan: ArmPlan)
        ensures
            (*final(self), plan) == arm_spec(*old(self), deadline, now),
    {
        if self.armed {
            match self.deadline {
                Some(current) => {
                    if current == deadline {
                        return ArmPlan { disarm_backend: false, arm_backend: false };
                    }
                },
                None => {},
            }
        }
        let disarm_backend = self.armed;
        self.armed = false;
        self.deadline = Some(deadline);
        let arm_backend = now.nanos < deadline.nanos;
        self.armed = arm_backend;
        ArmPlan { disarm_backend, arm_backend }
    }

    /// Records that the backend refused to arm: the deadline is dropped.
    pub fn arm_failed(&mut self)
        ensures
            *final(self) == idle_timer(),
    {
        self.deadline = None;
        self.armed = false;
    }

    /// Disarms the timer; returns whether the backend has to be disarmed.
    pub fn disarm(&mut self) -> (disarm_backend: bool)
        ensures
            disarm_backend == old(self).armed,
            *final(self) == idle_timer(),
    {
        let disarm_backend = self.armed;
        self.deadline = None;
        self.armed = false;
        disarm_backend
    }

    /// Checks whether the timer has expired at `now`.
    pub fn poll_expired(&mut self, now: Instant) -> (r: Expiry)
        ensures
            (*final(self), r) == poll_spec(*old(self), now),
    {
        match self.deadline {
            None => Expiry::Unset,
            Some(d) => {
                if d.nanos <= now.nanos {
                    self.deadline = None;
                    self.armed = false;
                    Expiry::Elapsed
                } else {
                    Expiry::Backend
                }
            },
        }
    }

    /// Records that the backend reported its deadline as reached.
    pub fn backend_fired(&mut self)
        ensures
            *final(self) == idle_timer(),
    {
        self.deadline = None;
        self.armed = false;
    }
}

/// Arming never stacks a second arm on an armed backend, and a backend that
/// follows every plan stays armed exactly when the timer says it is.
pub proof fn lemma_arm_keeps_backend_in_step(timer: Timer, deadline: Instant, now: Instant)
    ensures
        ({
            let (next, plan) = arm_spec(timer, deadline, now);
            &&& plan.arm_backend && timer.armed ==> plan.disarm_backend
            &&& backend_after(timer.armed, plan) == next.armed
            &&& next.deadline == Some(deadline)
        }),
{
}

/// The idle timer has no deadline and its backend is disarmed.
pub proof fn lemma_idle_timer_is_disarmed()
    ensures
        idle_timer().deadline is None,
        !idle_timer().armed,
{
}

/// Arming always records the new deadline. Unless the backend is already
/// armed for exactly that deadline, an armed backend is disarmed first, and
/// the backend is armed afresh exactly when the deadline lies after `now`,
/// whatever deadline the timer held before.
pub proof fn lemma_arm_outcome(timer: Timer, deadline: Instant, now: Instant)
    ensures
        ({
            let (next, plan) = arm_spec(timer, deadline, now);
            &&& next.deadline == Some(deadline)
            &&& timer.armed && timer.deadline == Some(deadline) ==> {
                &&& next == timer
                &&& !plan.disarm_backend
                &&& !plan.arm_backend
            }
            &&& !(timer.armed && timer.deadline == Some(deadline)) ==> {
                &&& plan.disarm_backend == timer.armed
                &&& now.nanos < deadline.nanos ==> plan.arm_backend && next.armed
                &&& deadline.nanos <= now.nanos ==> !plan.arm_backend && !next.armed
            }
        }),
{
}

/// Checking for expiry: a timer without a deadline never fires; one whose
/// deadline lies after `now` is left to the backend and stays as it is; one
/// whose deadline has been reached is reported elapsed and becomes idle.
pub proof fn lemma_poll_outcome(timer: Timer, now: Instant)
    ensures
        ({
            let (next, r) = poll_spec(timer, now);
            &&& timer.deadline is None ==> r == Expiry::Unset && next == timer
            &&& timer.deadline is Some && now.nanos < timer.deadline.unwrap().nanos ==> r
                == Expiry::Backend && next == timer
            &&& timer.deadline is Some && timer.deadline.unwrap().nanos <= now.nanos ==> r
                == Expiry::Elapsed && next.deadline is None && !next.armed
        }),
{
}

/// Arming twice for the same deadline does no more than arming once.
pub proof fn lemma_arm_idempotent(timer: Timer, deadline: Instant, now: Instant, later: Instant)
    requires
        now.nanos <= later.nanos,
        arm_spec(timer, deadline, now).0.armed,
    ensures
        ({
            let once = arm_spec(timer, deadline, now).0;
            let (twice, plan) = arm_spec(once, deadline, later);
            &&& twice == once
            &&& !plan.arm_backend && !plan.disarm_backend
        }),
{
}

/// A timer armed for a deadline that has passed reports it as elapsed and
/// returns to idle.
pub proof fn lemma_reached_deadline_elapses(timer: Timer, deadline: Instant, now: Instant, later: Instant)
    requires
        deadline.nanos <= later.nanos,
    ensures
        poll_spec(arm_spec(timer, deadline, now).0, later) == (idle_timer(), Expiry::Elapsed),
{
}

/// The span a one-shot backend timer is set for: the time left until
/// `deadline`, at least one nanosecond so that the timer is never left
/// disarmed by a zero span.
pub fn oneshot_duration(deadline: Instant, now: Instant) -> (r: Duration)
    ensures
        r.nanos == (if now.nanos < deadline.nanos { deadline.nanos - now.nanos } else { 1 }),
{
    let left = deadline.saturating_duration_since(now);
    if left.nanos < 1 {
        Duration { nanos: 1 }
    } else {
        left
    }
}

} // verus!

verus! {

/// The unit in which a kernel-queue timer counts its span.
#[derive(Clone, Copy, Debug, PartialEq, Eq, Structural)]
pub enum TimerUnits {
    Nanoseconds,
    Milliseconds,
}

/// `value`, or `i64::MAX` where it does not fit an `i64`.
pub fn clamp_i64(value: u128) -> (r: i64)
    ensures
        r == (if value <= i64::MAX { value as int } else { i64::MAX as int }),
{
    if value <= i64::MAX as u128 {
        value as i64
    } else {
        i64::MAX
    }
}

/// `value / divisor`, rounded up.
pub open spec fn div_ceil(value: int, divisor: int) -> int {
    (value + divisor - 1) / divisor
}

/// `div_ceil(value, divisor)` is the least count of `divisor`s that covers
/// `value`: zero for zero, and otherwise the `r` with
/// `divisor * (r - 1) < value <= divisor * r`.
pub proof fn lemma_div_ceil_rounds_up(value: int, divisor: int)
    requires
        divisor > 0,
        value >= 0,
    ensures
        value == 0 ==> div_ceil(value, divisor) == 0,
        value > 0 ==> {
            &&& div_ceil(value, divisor) >= 1
            &&& divisor * (div_ceil(value, divisor) - 1) < value
            &&& value <= divisor * div_ceil(value, divisor)
        },
{
    let q = (value + divisor - 1) / divisor;
    let m = (value + divisor - 1) % divisor;
    vstd::arithmetic::div_mod::lemma_fundamental_div_mod(value + divisor - 1, divisor);
    vstd::arithmetic::div_mod::lemma_mod_pos_bound(value + divisor - 1, divisor);
    assert(value + divisor - 1 == divisor * q + m);
    assert(div_ceil(value, divisor) == q);
    assert(divisor * (q - 1) == divisor * q - divisor) by (nonlinear_arith);
    if value == 0 {
        assert(q == 0) by (nonlinear_arith)
            requires
                divisor * q + m == divisor - 1,
                0 <= m < divisor,
                divisor > 0,
        {
        }
    } else {
        assert(q >= 1) by (nonlinear_arith)
            requires
                divisor * q + m == value + divisor - 1,
                0 <= m < divisor,
                divisor > 0,
                value > 0,
        {
        }
    }
}

pub(crate) fn div_ceil_u128(value: u128, divisor: u128) -> (r: u128)
    requires
        divisor > 0,
    ensures
        r == div_ceil(value as int, divisor as int),
{
    let q = value / divisor;
    if value % divisor == 0 {
        proof {
            assert(div_ceil(value as int, divisor as int) == q) by (nonlinear_arith)
                requires
                    divisor > 0,
                    value % divisor == 0,
                    q == value / divisor,
            {
                assert(value == divisor * q);
                assert(value + divisor - 1 == divisor * q + (divisor - 1));
            }
        }
        q
    } else {
        proof {
            assert(div_ceil(value as int, divisor as int) == q + 1) by (nonlinear_arith)
                requires
                    divisor > 0,
                    value % divisor != 0,
                    q == value / divisor,
            {
                let r = value % divisor;
                assert(value == divisor * q + r);
                assert(value + divisor - 1 == divisor * (q + 1) + (r - 1));
            }
            assert(q < u128::MAX) by (nonlinear_arith)
                requires
                    divisor > 0,
                    value % divisor != 0,
                    q == value / divisor,
                    value <= u128::MAX,
            {
            }
        }
        q + 1
    }
}

/// The count a kernel-queue timer is set to for `duration`, in `units`:
/// at least one, and `i64::MAX` where the count does not fit an `i64`.
/// Milliseconds are rounded up so that the timer never fires early.
pub fn duration_to_timer(duration: Duration, units: TimerUnits) -> (r: i64)
    ensures
        r == ({
            let count = match units {
                TimerUnits::Nanoseconds => duration.nanos as int,
                TimerUnits::Milliseconds => div_ceil(duration.nanos as int, 1_000_000),
            };
            let count = if count < 1 { 1 } else { count };
            if count <= i64::MAX { count } else { i64::MAX as int }
        }),
{
    let count = match units {
        TimerUnits::Nanoseconds => duration.nanos,
        TimerUnits::Milliseconds => div_ceil_u128(duration.nanos, 1_000_000),
    };
    let count = if count < 1 { 1 } else { count };
    clamp_i64(count)
}

/// The relative due time of a waitable timer for `duration`: minus the
/// number of 100 ns ticks, rounded up and at least one.
pub fn relative_due_time(duration: Duration) -> (r: Result<i64, TimerError>)
    ensures
        ({
            let ticks = div_ceil(duration.nanos as int, 100);
            let ticks = if ticks < 1 { 1 } else { ticks };
            r == if ticks <= i64::MAX {
                Ok::<i64, TimerError>((-ticks) as i64)
            } else {
                Err::<i64, TimerError>(TimerError::DueTimeOutOfRange)
            }
        }),
{
    let ticks = div_ceil_u128(duration.nanos, 100);
    let ticks = if ticks < 1 { 1 } else { ticks };
    if ticks <= i64::MAX as u128 {
        let t = ticks as i64;
        Ok(-t)
    } else {
        Err(TimerError::DueTimeOutOfRange)
    }
}

} // verus!

verus! {

/// Whether draining a kernel queue goes on after a `kevent` call that
/// returned `count` events into a buffer with room for `capacity`, or failed
/// (`None`), `interrupted` saying whether the failed call was interrupted.
/// Draining stops once a call comes back with room to spare.
pub fn drain_continues(count: Option<usize>, interrupted: bool, capacity: usize) -> (r: bool)
    ensures
        r == match count {
            Some(n) => n != 0 && n >= capacity,
            None => interrupted,
        },
{
    match count {
        Some(n) => n != 0 && n >= capacity,
        None => interrupted,
    }
}

} // verus!

verus! {

/// What a kernel-queue poll for a fired timer found.
#[derive(Clone, Copy, Debug, PartialEq, Eq, Structural)]
pub enum KeventOutcome {
    /// An event arrived: the timer fired.
    Fired,
    /// No event yet: wait for the queue to become readable again.
    NotReady,
    /// The call was interrupted by a signal: poll again.
    Interrupted,
    /// The call failed: report the system error.
    Failed,
}

/// Classifies a `kevent` poll that returned `count` events, or failed
/// (`None`), `interrupted` saying whether the failed call was interrupted.
pub fn classify_kevent(count: Option<usize>, interrupted: bool) -> (r: KeventOutcome)
    ensures
        r == match count {
            Some(n) => if n == 0 { KeventOutcome::NotReady } else { KeventOutcome::Fired },
            None => if interrupted { KeventOutcome::Interrupted } else { KeventOutcome::Failed },
        },
{
    match count {
        Some(n) => {
            if n == 0 {
                KeventOutcome::NotReady
            } else {
                KeventOutcome::Fired
            }
        },
        None => {
            if interrupted {
                KeventOutcome::Interrupted
            } else {
                KeventOutcome::Failed
            }
        },
    }
}

} // verus!

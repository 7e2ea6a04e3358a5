//! A schedule that fires at fixed periods.
//!
//! Missed ticks are skipped: after a scheduling delay, the next deadline is
//! advanced to the next period boundary at or after the current time, so the
//! ticks stay on the grid `at + k * duration`.

use vstd::prelude::*;
use crate::time::{Instant, Duration, MAX_DURATION_NANOS, MAX_INSTANT_NANOS};
use crate::timer::{Timer, ArmPlan, Expiry, arm_spec, idle_timer, poll_spec, div_ceil};

verus! {

/// The number of whole periods from `fired` to the next boundary at or
/// after `now`, at least one.
pub open spec fn periods_to_boundary(fired: Instant, now: Instant, duration: Duration) -> int {
    let step = if duration.nanos == 0 { 1 } else { duration.nanos as int };
    div_ceil(now.nanos - fired.nanos, step)
}

/// [`periods_to_boundary`], capped at `u32::MAX`.
pub open spec fn capped_periods(fired: Instant, now: Instant, duration: Duration) -> int {
    let periods = periods_to_boundary(fired, now, duration);
    if periods <= u32::MAX { periods } else { u32::MAX as int }
}

/// The tick that follows the one due at `fired`, when it is taken at `now`,
/// in nanoseconds: one period later if that is not yet past, otherwise the
/// first period boundary at or after `now`. The number of periods is capped
/// at `u32::MAX` and the span at [`MAX_DURATION_NANOS`]; the result may lie
/// beyond the clock's range.
pub open spec fn next_boundary(fired: Instant, now: Instant, duration: Duration) -> int {
    if now.nanos <= fired.nanos + duration.nanos {
        fired.nanos + duration.nanos
    } else {
        let periods = capped_periods(fired, now, duration);
        let span = if duration.nanos * periods <= MAX_DURATION_NANOS {
            duration.nanos * periods
        } else {
            MAX_DURATION_NANOS as int
        };
        fired.nanos + span
    }
}

/// A tick taken late advances by the least number of whole periods that
/// reaches `now`: the `p >= 1` with `duration * (p - 1) < now - fired <=
/// duration * p`.
pub proof fn lemma_periods_reach_now(fired: Instant, now: Instant, duration: Duration)
    requires
        duration.nanos > 0,
        fired.nanos < now.nanos,
    ensures
        periods_to_boundary(fired, now, duration) >= 1,
        duration.nanos * (periods_to_boundary(fired, now, duration) - 1) < now.nanos - fired.nanos,
        now.nanos - fired.nanos <= duration.nanos * periods_to_boundary(fired, now, duration),
{
    crate::timer::lemma_div_ceil_rounds_up(now.nanos - fired.nanos, duration.nanos as int);
}

/// The tick after `fired`, taken at `now`: one period on while that is not
/// yet past; otherwise `fired + duration * c` for the least `c` that reaches
/// `now`, with `c` capped at `u32::MAX` and the span at
/// [`MAX_DURATION_NANOS`]. Returns that `c`.
pub proof fn lemma_next_boundary_exact(fired: Instant, now: Instant, duration: Duration) -> (c: int)
    requires
        duration.nanos > 0,
    ensures
        now.nanos <= fired.nanos + duration.nanos ==> next_boundary(fired, now, duration)
            == fired.nanos + duration.nanos,
        now.nanos > fired.nanos + duration.nanos ==> {
            &&& c >= 2
            &&& duration.nanos * (c - 1) < now.nanos - fired.nanos
            &&& now.nanos - fired.nanos <= duration.nanos * c
            &&& next_boundary(fired, now, duration) == fired.nanos + {
                let periods = if c <= u32::MAX { c } else { u32::MAX as int };
                if duration.nanos * periods <= MAX_DURATION_NANOS {
                    duration.nanos * periods
                } else {
                    MAX_DURATION_NANOS as int
                }
            }
        },
{
    if now.nanos <= fired.nanos + duration.nanos {
        0
    } else {
        lemma_periods_reach_now(fired, now, duration);
        let c = periods_to_boundary(fired, now, duration);
        let d = duration.nanos as int;
        let e = now.nanos - fired.nanos;
        assert(c >= 2) by (nonlinear_arith)
            requires
                e <= d * c,
                e > d,
                d > 0,
        {
        }
        c
    }
}

/// The tick after `fired` lies on the grid `fired + k * duration`, `k >= 1`,
/// at or after `now`, and it is the first boundary there: the one before it
/// is before `now`, unless it is `fired` itself. This holds where `now` is
/// at most `u32::MAX` periods past `fired` and the span to the tick stays
/// below [`MAX_DURATION_NANOS`].
pub proof fn lemma_next_boundary_first_at_or_after(fired: Instant, now: Instant, duration: Duration) -> (k: int)
    requires
        duration.nanos > 0,
        now.nanos - fired.nanos <= duration.nanos * u32::MAX,
        now.nanos - fired.nanos + duration.nanos <= MAX_DURATION_NANOS,
    ensures
        k >= 1,
        next_boundary(fired, now, duration) == fired.nanos + k * duration.nanos,
        next_boundary(fired, now, duration) >= now.nanos,
        k == 1 || next_boundary(fired, now, duration) - duration.nanos < now.nanos,
{
    let c = lemma_next_boundary_exact(fired, now, duration);
    if now.nanos <= fired.nanos + duration.nanos {
        assert(1 * duration.nanos == duration.nanos);
        1
    } else {
        let d = duration.nanos as int;
        let e = now.nanos - fired.nanos;
        assert(c <= u32::MAX) by (nonlinear_arith)
            requires
                d * (c - 1) < e,
                e <= d * u32::MAX,
                d > 0,
        {
        }
        assert(d * c <= MAX_DURATION_NANOS) by (nonlinear_arith)
            requires
                d * (c - 1) < e,
                e + d <= MAX_DURATION_NANOS,
        {
        }
        assert(d * c == c * d) by (nonlinear_arith);
        assert(c * d - d == (c - 1) * d) by (nonlinear_arith);
        c
    }
}

/// The tick after `fired` lies on the grid `fired + k * duration`, `k >= 1`,
/// also where the period count is capped. Only a span saturated at
/// [`MAX_DURATION_NANOS`] leaves the grid, which neither a short enough wait
/// nor a period of at most `MAX_DURATION_NANOS / u32::MAX` allows.
pub proof fn lemma_next_boundary_on_grid(fired: Instant, now: Instant, duration: Duration) -> (k: int)
    requires
        duration.nanos > 0,
        now.nanos - fired.nanos + duration.nanos <= MAX_DURATION_NANOS || duration.nanos
            * u32::MAX <= MAX_DURATION_NANOS,
    ensures
        k >= 1,
        next_boundary(fired, now, duration) == fired.nanos + k * duration.nanos,
{
    let c = lemma_next_boundary_exact(fired, now, duration);
    if now.nanos <= fired.nanos + duration.nanos {
        assert(1 * duration.nanos == duration.nanos);
        1
    } else {
        let d = duration.nanos as int;
        let e = now.nanos - fired.nanos;
        let periods = if c <= u32::MAX { c } else { u32::MAX as int };
        assert(d * periods <= MAX_DURATION_NANOS) by (nonlinear_arith)
            requires
                d * (c - 1) < e,
                e + d <= MAX_DURATION_NANOS || d * u32::MAX <= MAX_DURATION_NANOS,
                periods <= c,
                periods <= u32::MAX,
                periods >= 1,
                d > 0,
        {
        }
        assert(d * periods == periods * d) by (nonlinear_arith);
        periods
    }
}

/// No drift: taken from a tick on the grid `at + m * duration`, the next
/// tick lies further along the same grid, however late it is taken. Only a
/// span saturated at [`MAX_DURATION_NANOS`] leaves the grid, which neither a
/// short enough wait nor a period of at most `MAX_DURATION_NANOS / u32::MAX`
/// allows.
pub proof fn lemma_ticks_stay_on_grid(at: Instant, m: int, fired: Instant, now: Instant, duration: Duration) -> (next_m: int)
    requires
        duration.nanos > 0,
        m >= 0,
        fired.nanos == at.nanos + m * duration.nanos,
        now.nanos - fired.nanos + duration.nanos <= MAX_DURATION_NANOS || duration.nanos
            * u32::MAX <= MAX_DURATION_NANOS,
    ensures
        next_m > m,
        next_boundary(fired, now, duration) == at.nanos + next_m * duration.nanos,
{
    let k = lemma_next_boundary_on_grid(fired, now, duration);
    assert(m * duration.nanos + k * duration.nanos == (m + k) * duration.nanos) by (nonlinear_arith);
    m + k
}

/// [`next_boundary`], or `None` where it lies beyond the clock's range.
fn checked_next_deadline(fired: Instant, now: Instant, duration: Duration) -> (r: Option<Instant>)
    ensures
        r == (if next_boundary(fired, now, duration) <= MAX_INSTANT_NANOS {
            Some(Instant { nanos: next_boundary(fired, now, duration) as u128 })
        } else {
            None::<Instant>
        }),
{
    let next = match fired.checked_add(duration) {
        Some(next) => next,
        None => {
            proof {
                if now.nanos > fired.nanos + duration.nanos {
                    lemma_span_at_least_one_period(fired, now, duration);
                }
            }
            return None;
        },
    };
    if now.nanos <= next.nanos {
        return Some(next);
    }
    let elapsed = now.saturating_duration_since(fired).as_nanos();
    let step: u128 = if duration.nanos == 0 { 1 } else { duration.nanos };
    let periods = crate::timer::div_ceil_u128(elapsed, step);
    let periods: u32 = if periods <= u32::MAX as u128 { periods as u32 } else { u32::MAX };
    fired.checked_add(duration.saturating_mul(periods))
}

/// Once `now` is past the first boundary, the span to the next one covers at
/// least one period (or saturates).
proof fn lemma_span_at_least_one_period(fired: Instant, now: Instant, duration: Duration)
    requires
        now.nanos > fired.nanos + duration.nanos,
    ensures
        next_boundary(fired, now, duration) >= fired.nanos + duration.nanos
            || next_boundary(fired, now, duration) == fired.nanos + MAX_DURATION_NANOS,
{
    let step = if duration.nanos == 0 { 1 } else { duration.nanos as int };
    let elapsed = now.nanos - fired.nanos;
    let periods = periods_to_boundary(fired, now, duration);
    assert(periods >= 1) by (nonlinear_arith)
        requires
            step >= 1,
            elapsed > 0,
            periods == (elapsed + step - 1) / step,
    {
    }
    let capped = if periods <= u32::MAX { periods } else { u32::MAX as int };
    assert(duration.nanos * capped >= duration.nanos) by (nonlinear_arith)
        requires
            capped >= 1,
            duration.nanos >= 0,
    {
    }
}

/// The deadline of the tick after the one due at `fired`, taken at `now`;
/// see [`next_boundary`].
pub fn next_deadline(fired: Instant, now: Instant, duration: Duration) -> (r: Instant)
    requires
        next_boundary(fired, now, duration) <= MAX_INSTANT_NANOS,
    ensures
        r.nanos == next_boundary(fired, now, duration),
{
    match checked_next_deadline(fired, now, duration) {
        Some(next) => next,
        None => fired,
    }
}

/// A periodic schedule: the next tick and the period.
pub struct Interval {
    timer: Timer,
    next: Instant,
    duration: Duration,
}

/// One step of an [`Interval`]; see [`Interval::poll_tick`].
#[derive(Clone, Copy, Debug, PartialEq, Eq, Structural)]
pub enum Tick {
    /// The next tick lies ahead; the timer is armed for it as `ArmPlan` says.
    Wait(ArmPlan),
    /// A tick is due; the schedule moved on to the following one.
    Fired,
    /// The following tick lies beyond the clock's range.
    Overflow,
}

impl Interval {
    /// The deadline of the next tick.
    pub closed spec fn next_spec(&self) -> Instant {
        self.next
    }

    /// The period.
    pub closed spec fn duration_spec(&self) -> Duration {
        self.duration
    }

    /// The state of the schedule's timer.
    pub closed spec fn timer_spec(&self) -> Timer {
        self.timer
    }

    /// Creates a schedule whose first tick is at `at`, followed by ticks
    /// every `duration`.
    pub fn new(at: Instant, duration: Duration) -> (r: Interval)
        requires
            duration.nanos > 0,
        ensures
            r.next_spec() == at,
            r.duration_spec() == duration,
            r.timer_spec() == idle_timer(),
    {
        Interval { timer: Timer::new(), next: at, duration }
    }

    /// Creates a schedule whose first tick is `duration` after `now`.
    pub fn new_interval(duration: Duration, now: Instant) -> (r: Interval)
        requires
            duration.nanos > 0,
            now.nanos + duration.nanos <= MAX_INSTANT_NANOS,
        ensures
            r.next_spec().nanos == now.nanos + duration.nanos,
            r.duration_spec() == duration,
            r.timer_spec() == idle_timer(),
    {
        let at = Instant { nanos: now.nanos + duration.nanos };
        Self::new(at, duration)
    }

    /// The deadline of the next tick.
    pub fn next_tick(&self) -> (r: Instant)
        ensures
            r == self.next_spec(),
    {
        self.next
    }

    /// Returns the state of the timer.
    pub fn timer(&self) -> (r: Timer)
        ensures
            r == self.timer_spec(),
    {
        self.timer
    }

    /// Checks the timer for expiry at `now`.
    pub fn poll_expired(&mut self, now: Instant) -> (r: Expiry)
        ensures
            final(self).next_spec() == old(self).next_spec(),
            final(self).duration_spec() == old(self).duration_spec(),
            (final(self).timer_spec(), r) == poll_spec(old(self).timer_spec(), now),
    {
        self.timer.poll_expired(now)
    }

    /// Records that the backend reported the deadline as reached.
    pub fn backend_fired(&mut self)
        ensures
            final(self).next_spec() == old(self).next_spec(),
            final(self).duration_spec() == old(self).duration_spec(),
            final(self).timer_spec() == idle_timer(),
    {
        self.timer.backend_fired()
    }

    /// Records that the backend refused to arm: the timer drops its deadline.
    pub fn arm_failed(&mut self)
        ensures
            final(self).next_spec() == old(self).next_spec(),
            final(self).duration_spec() == old(self).duration_spec(),
            final(self).timer_spec() == idle_timer(),
    {
        self.timer.arm_failed()
    }

    /// Takes one step of the schedule at `now`: a tick that is due fires and
    /// the schedule moves to the following boundary; otherwise the timer is
    /// armed for the next tick.
    pub fn poll_tick(&mut self, now: Instant) -> (r: Tick)
        ensures
            final(self).duration_spec() == old(self).duration_spec(),
            if now.nanos < old(self).next_spec().nanos {
                let (timer, plan) = arm_spec(old(self).timer_spec(), old(self).next_spec(), now);
                &&& r == Tick::Wait(plan)
                &&& final(self).timer_spec() == timer
                &&& final(self).next_spec() == old(self).next_spec()
            } else if next_boundary(old(self).next_spec(), now, old(self).duration_spec()) <= MAX_INSTANT_NANOS {
                &&& r == Tick::Fired
                &&& final(self).next_spec().nanos == next_boundary(
                    old(self).next_spec(),
                    now,
                    old(self).duration_spec(),
                )
                &&& final(self).timer_spec() == old(self).timer_spec()
            } else {
                &&& r == Tick::Overflow
                &&& final(self).next_spec() == old(self).next_spec()
                &&& final(self).timer_spec() == old(self).timer_spec()
            },
    {
        if now.nanos < self.next.nanos {
            let next = self.next;
            let plan = self.timer.arm(next, now);
            return Tick::Wait(plan);
        }
        match checked_next_deadline(self.next, now, self.duration) {
            Some(next) => {
                self.next = next;
                Tick::Fired
            },
            None => Tick::Overflow,
        }
    }
}

} // verus!

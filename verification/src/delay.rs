//! A one-shot delay that completes at a deadline.

use vstd::prelude::*;
use crate::time::Instant;
use crate::timer::{Timer, ArmPlan, Expiry, arm_spec, idle_timer, poll_spec};

verus! {

/// A delay that completes at a specified instant.
pub struct Delay {
    timer: Timer,
    deadline: Instant,
    initialized: bool,
}

impl Delay {
    /// The instant at which the delay completes.
    pub closed spec fn deadline_spec(&self) -> Instant {
        self.deadline
    }

    /// Whether the timer has been armed for the current deadline.
    pub closed spec fn initialized_spec(&self) -> bool {
        self.initialized
    }

    /// The state of the delay's timer.
    pub closed spec fn timer_spec(&self) -> Timer {
        self.timer
    }

    /// Creates a new `Delay` that completes at `deadline`.
    pub fn new(deadline: Instant) -> (r: Delay)
        ensures
            r.deadline_spec() == deadline,
            !r.initialized_spec(),
            r.timer_spec() == idle_timer(),
    {
        Delay { timer: Timer::new(), deadline, initialized: false }
    }

    /// Returns the instant at which the delay completes.
    pub fn deadline(&self) -> (r: Instant)
        ensures
            r == self.deadline_spec(),
    {
        self.deadline
    }

    /// Returns `true` once the deadline has been reached at `now`.
    pub fn is_elapsed(&self, now: Instant) -> (r: bool)
        ensures
            r == (self.deadline_spec().nanos <= now.nanos),
    {
        self.deadline.nanos <= now.nanos
    }

    /// Resets the delay to a new deadline; the timer is disarmed, and the
    /// result says whether the backend has to be disarmed.
    pub fn reset(&mut self, deadline: Instant) -> (disarm_backend: bool)
        ensures
            disarm_backend == old(self).timer_spec().armed,
            final(self).timer_spec() == idle_timer(),
            final(self).deadline_spec() == deadline,
            !final(self).initialized_spec(),
    {
        let disarm_backend = self.timer.disarm();
        self.deadline = deadline;
        self.initialized = false;
        disarm_backend
    }

    /// The first step of polling at `now`: arms the timer for the deadline
    /// unless that was done already, and returns what the backend has to do.
    pub fn poll_arm(&mut self, now: Instant) -> (r: Option<ArmPlan>)
        ensures
            final(self).deadline_spec() == old(self).deadline_spec(),
            final(self).initialized_spec(),
            if old(self).initialized_spec() {
                &&& r is None
                &&& final(self).timer_spec() == old(self).timer_spec()
            } else {
                let (timer, plan) = arm_spec(old(self).timer_spec(), old(self).deadline_spec(), now);
                &&& r == Some(plan)
                &&& final(self).timer_spec() == timer
            },
    {
        if self.initialized {
            None
        } else {
            let deadline = self.deadline;
            let plan = self.timer.arm(deadline, now);
            self.initialized = true;
            Some(plan)
        }
    }

    /// Returns the state of the timer.
    pub fn timer(&self) -> (r: Timer)
        ensures
            r == self.timer_spec(),
    {
        self.timer
    }

    /// Checks the timer for expiry at `now`.
    pub fn poll_expired(&mut self, now: Instant) -> (r: Expiry)
        ensures
            final(self).deadline_spec() == old(self).deadline_spec(),
            final(self).initialized_spec() == old(self).initialized_spec(),
            (final(self).timer_spec(), r) == poll_spec(old(self).timer_spec(), now),
    {
        self.timer.poll_expired(now)
    }

    /// Records that the backend reported the deadline as reached.
    pub fn backend_fired(&mut self)
        ensures
            final(self).deadline_spec() == old(self).deadline_spec(),
            final(self).initialized_spec() == old(self).initialized_spec(),
            final(self).timer_spec() == idle_timer(),
    {
        self.timer.backend_fired()
    }

    /// Records that the backend refused to arm: the deadline is dropped from
    /// the timer and the next poll arms it again.
    pub fn arm_failed(&mut self)
        ensures
            final(self).deadline_spec() == old(self).deadline_spec(),
            !final(self).initialized_spec(),
            final(self).timer_spec() == idle_timer(),
    {
        self.timer.arm_failed();
        self.initialized = false;
    }
}

/// After a reset the timer is idle, so the next poll arms it afresh for the
/// new deadline: nothing has to be disarmed, and the backend is armed exactly
/// when the deadline lies ahead.
pub proof fn lemma_reset_rearms(deadline: Instant, now: Instant)
    ensures
        arm_spec(idle_timer(), deadline, now) == (
            Timer { deadline: Some(deadline), armed: now.nanos < deadline.nanos },
            ArmPlan { disarm_backend: false, arm_backend: now.nanos < deadline.nanos },
        ),
{
}

} // verus!

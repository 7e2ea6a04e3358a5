# tokio-timerd

OS-backed timers for Tokio with a verified core.

- `src/` is the core, verified with Verus. It holds no operating-system
  handle: every decision takes the current time as an argument and returns
  what the timer backend has to do.
  - `time.rs`: `Instant` and `Duration` on a nanosecond clock.
  - `timer.rs`: the `Timer` state machine (arm, disarm, expiry) and the
    conversions of spans into backend units.
  - `delay.rs`, `interval.rs`, `delay_queue.rs`: a one-shot delay, a periodic
    schedule that stays on its grid, and a queue of delayed values ordered by
    deadline and insertion.
  - `slots.rs`: the trusted contracts of the `slab` crate.
- `app/` wraps the core in Tokio futures and streams and owns the
  platform timers (`timerfd`, `kqueue`, Windows waitable timers, or a Tokio
  fallback).
- `tests/` exercises the core on a simulated clock.

use tokio_timerd::timer::{
    clamp_i64, classify_kevent, drain_continues, duration_to_timer, oneshot_duration,
    relative_due_time,
};
use tokio_timerd::{Duration, Expiry, Instant, KeventOutcome, Timer, TimerError, TimerUnits};

#[test]
fn relative_due_time_rounds_up() {
    assert_eq!(relative_due_time(Duration::zero()).unwrap(), -1);
    assert_eq!(relative_due_time(Duration::from_nanos(1)).unwrap(), -1);
    assert_eq!(relative_due_time(Duration::from_nanos(100)).unwrap(), -1);
    assert_eq!(relative_due_time(Duration::from_nanos(101)).unwrap(), -2);
    assert!(relative_due_time(Duration::max_value()).is_err());
}

#[test]
fn relative_due_time_reports_range_error() {
    assert_eq!(
        relative_due_time(Duration::max_value()),
        Err(TimerError::DueTimeOutOfRange)
    );
    assert_eq!(relative_due_time(Duration::from_secs(1)), Ok(-10_000_000));
}

#[test]
fn kqueue_counts_round_and_clamp() {
    assert_eq!(duration_to_timer(Duration::zero(), TimerUnits::Nanoseconds), 1);
    assert_eq!(duration_to_timer(Duration::from_nanos(1_500), TimerUnits::Nanoseconds), 1_500);
    assert_eq!(duration_to_timer(Duration::zero(), TimerUnits::Milliseconds), 1);
    assert_eq!(duration_to_timer(Duration::from_nanos(1_000_001), TimerUnits::Milliseconds), 2);
    assert_eq!(duration_to_timer(Duration::from_millis(7), TimerUnits::Milliseconds), 7);
    assert_eq!(duration_to_timer(Duration::max_value(), TimerUnits::Nanoseconds), i64::MAX);
    assert_eq!(clamp_i64(u128::MAX), i64::MAX);
    assert_eq!(clamp_i64(42), 42);
}

#[test]
fn oneshot_duration_is_never_zero() {
    let now = Instant::from_nanos(1_000);
    assert_eq!(oneshot_duration(Instant::from_nanos(400), now).as_nanos(), 1);
    assert_eq!(oneshot_duration(Instant::from_nanos(1_000), now).as_nanos(), 1);
    assert_eq!(oneshot_duration(Instant::from_nanos(1_250), now).as_nanos(), 250);
}

#[test]
fn arming_the_same_deadline_twice_is_a_no_op() {
    let mut timer = Timer::new();
    let now = Instant::from_nanos(10);
    let deadline = Instant::from_nanos(100);
    let first = timer.arm(deadline, now);
    assert!(first.arm_backend && !first.disarm_backend);
    let second = timer.arm(deadline, now);
    assert!(!second.arm_backend && !second.disarm_backend);
    let third = timer.arm(Instant::from_nanos(200), now);
    assert!(third.arm_backend && third.disarm_backend);
}

#[test]
fn past_deadline_is_recorded_but_not_armed() {
    let mut timer = Timer::new();
    let plan = timer.arm(Instant::from_nanos(5), Instant::from_nanos(10));
    assert!(!plan.arm_backend && !plan.disarm_backend);
    assert_eq!(timer.poll_expired(Instant::from_nanos(10)), Expiry::Elapsed);
    assert_eq!(timer, Timer::new());
}

#[test]
fn poll_states() {
    let mut timer = Timer::new();
    assert_eq!(timer.poll_expired(Instant::from_nanos(0)), Expiry::Unset);
    timer.arm(Instant::from_nanos(100), Instant::from_nanos(0));
    assert_eq!(timer.poll_expired(Instant::from_nanos(50)), Expiry::Backend);
    timer.backend_fired();
    assert_eq!(timer, Timer::new());
    timer.arm(Instant::from_nanos(100), Instant::from_nanos(0));
    timer.arm_failed();
    assert_eq!(timer, Timer::new());
    timer.arm(Instant::from_nanos(100), Instant::from_nanos(0));
    assert!(timer.disarm());
    assert!(!timer.disarm());
}

#[test]
fn draining_stops_when_the_buffer_is_not_filled() {
    assert!(!drain_continues(Some(0), false, 4));
    assert!(!drain_continues(Some(3), false, 4));
    assert!(drain_continues(Some(4), false, 4));
    assert!(drain_continues(None, true, 4));
    assert!(!drain_continues(None, false, 4));
}

#[test]
fn kevent_results_are_classified() {
    assert_eq!(classify_kevent(Some(0), false), KeventOutcome::NotReady);
    assert_eq!(classify_kevent(Some(2), false), KeventOutcome::Fired);
    assert_eq!(classify_kevent(None, true), KeventOutcome::Interrupted);
    assert_eq!(classify_kevent(None, false), KeventOutcome::Failed);
}

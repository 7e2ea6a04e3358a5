use tokio_timerd::{
    check_read_buffer, classify_read, sleep, try_sleep, Delay, Duration, Expiry, Instant,
    ReadOutcome, TimerError,
};

const MS: u128 = 1_000_000;

/// Polls the delay like its future does, letting simulated time pass.
fn complete(delay: &mut Delay, now: &mut Instant) {
    if let Some(plan) = delay.poll_arm(*now) {
        assert!(!plan.disarm_backend);
    }
    loop {
        match delay.poll_expired(*now) {
            Expiry::Elapsed => return,
            Expiry::Backend => *now = delay.deadline(),
            Expiry::Unset => panic!("a polled delay is armed"),
        }
    }
}

#[test]
fn sleep_overflow_is_rejected() {
    assert!(try_sleep(Instant::from_nanos(1).checked_add(Duration::max_value())).is_err());
    assert_eq!(
        try_sleep(Instant::from_nanos(1).checked_add(Duration::max_value())).err(),
        Some(TimerError::SleepOutOfRange)
    );
}

#[test]
fn missing_deadline_is_refused() {
    assert_eq!(try_sleep(None).err(), Some(TimerError::SleepOutOfRange));
    let deadline = Instant::from_nanos(5);
    assert_eq!(try_sleep(Some(deadline)).unwrap().deadline(), deadline);
}

#[test]
fn try_sleep_works() {
    let now = Instant::from_nanos(100 * MS);
    let delay = try_sleep(now.checked_add(Duration::from_millis(1))).unwrap();
    assert_eq!(delay.deadline().as_nanos(), 101 * MS);
    assert_eq!(sleep(now.checked_add(Duration::from_millis(1))).deadline(), delay.deadline());
}

#[test]
fn delay_zero_duration() {
    let mut now = Instant::from_nanos(100 * MS);
    let mut delay = Delay::new(now);
    let plan = delay.poll_arm(now).unwrap();
    assert!(!plan.arm_backend);
    complete(&mut delay, &mut now);
    assert_eq!(now.as_nanos(), 100 * MS);
}

#[test]
fn delay_works() {
    let start = Instant::from_nanos(100 * MS);
    let mut now = start;
    let mut delay = Delay::new(Instant::from_nanos(start.as_nanos() + 10 * MS));
    complete(&mut delay, &mut now);
    assert_eq!(now.as_nanos(), start.as_nanos() + 10 * MS);
}

#[test]
fn delay_reset_rearms_timer() {
    let start = Instant::from_nanos(100 * MS);
    let mut now = start;
    let mut delay = Delay::new(Instant::from_nanos(start.as_nanos() + 60_000 * MS));
    let plan = delay.poll_arm(now).unwrap();
    assert!(plan.arm_backend);
    assert!(delay.reset(Instant::from_nanos(start.as_nanos() + 10 * MS)));
    complete(&mut delay, &mut now);
    assert_eq!(now.as_nanos(), start.as_nanos() + 10 * MS);
}

#[test]
fn delay_reports_elapsed_state() {
    let now = Instant::from_nanos(100 * MS);
    let mut delay = Delay::new(Instant::from_nanos(now.as_nanos() + 10 * MS));
    assert!(!delay.is_elapsed(now));

    delay.reset(Instant::from_nanos(now.as_nanos() - MS));
    assert!(delay.is_elapsed(now));

    delay.reset(Instant::from_nanos(now.as_nanos() + 10 * MS));
    assert!(!delay.is_elapsed(now));
}

#[test]
fn failed_arm_is_retried() {
    let now = Instant::from_nanos(100 * MS);
    let mut delay = Delay::new(Instant::from_nanos(now.as_nanos() + MS));
    assert!(delay.poll_arm(now).is_some());
    assert!(delay.poll_arm(now).is_none());
    delay.arm_failed();
    let plan = delay.poll_arm(now).unwrap();
    assert!(plan.arm_backend && !plan.disarm_backend);
}

#[test]
fn short_read_buffer_is_rejected() {
    assert_eq!(check_read_buffer(1), Err(TimerError::ShortBuffer));
    assert_eq!(check_read_buffer(8), Ok(()));
}

#[test]
fn read_results_are_classified() {
    assert_eq!(classify_read(8, false), ReadOutcome::Count);
    assert_eq!(classify_read(-1, true), ReadOutcome::Retry);
    assert_eq!(classify_read(-1, false), ReadOutcome::Failed);
    assert_eq!(classify_read(3, false), ReadOutcome::Incomplete);
}

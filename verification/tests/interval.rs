use tokio_timerd::interval::next_deadline;
use tokio_timerd::{Duration, Expiry, Instant, Interval, Tick, MAX_INSTANT_NANOS};

const MS: u128 = 1_000_000;

#[test]
fn missed_ticks_advance_to_next_boundary() {
    let fired = Instant::from_nanos(5_000 * MS);
    let duration = Duration::from_millis(100);
    let now = fired.checked_add(Duration::from_millis(250)).unwrap();
    assert_eq!(
        next_deadline(fired, now, duration),
        fired.checked_add(Duration::from_millis(300)).unwrap()
    );
}

#[test]
fn tick_on_time_moves_one_period() {
    let fired = Instant::from_nanos(5_000 * MS);
    let duration = Duration::from_millis(100);
    let now = fired.checked_add(Duration::from_millis(40)).unwrap();
    assert_eq!(next_deadline(fired, now, duration).as_nanos(), 5_100 * MS);
}

#[test]
fn boundary_reached_exactly_is_next_tick() {
    let fired = Instant::from_nanos(5_000 * MS);
    let duration = Duration::from_millis(100);
    let now = Instant::from_nanos(5_200 * MS);
    assert_eq!(next_deadline(fired, now, duration).as_nanos(), 5_200 * MS);
}

#[test]
fn period_count_is_capped() {
    let fired = Instant::from_nanos(0);
    let duration = Duration::from_nanos(1);
    let now = Instant::from_nanos(10_000_000_000);
    assert_eq!(next_deadline(fired, now, duration).as_nanos(), u128::from(u32::MAX));
}

#[test]
fn interval_works() {
    let start = Instant::from_nanos(1_000 * MS);
    let mut interval = Interval::new_interval(Duration::from_millis(1), start);
    let mut now = start;
    let mut ticks = Vec::new();
    while ticks.len() < 5 {
        match interval.poll_tick(now) {
            Tick::Fired => ticks.push(now.as_nanos()),
            Tick::Wait(_) => {
                now = interval.next_tick();
                assert_eq!(interval.poll_expired(now), Expiry::Elapsed);
            }
            Tick::Overflow => panic!("the schedule fits the clock"),
        }
    }
    let expected: Vec<u128> = (1..=5).map(|k| 1_000 * MS + k * MS).collect();
    assert_eq!(ticks, expected);
}

#[test]
fn long_interval_works() {
    let start = Instant::from_nanos(1_000 * MS);
    let mut interval = Interval::new_interval(Duration::from_millis(20), start);
    let mut now = start;
    for _ in 0..3 {
        let before = now;
        loop {
            match interval.poll_tick(now) {
                Tick::Fired => break,
                Tick::Wait(_) => {
                    now = interval.next_tick();
                    assert_eq!(interval.poll_expired(now), Expiry::Elapsed);
                }
                Tick::Overflow => panic!("the schedule fits the clock"),
            }
        }
        let elapsed = now.as_nanos() - before.as_nanos();
        assert!(elapsed >= 10 * MS);
        assert!(elapsed < 1_000 * MS);
    }
}

#[test]
fn late_poll_skips_missed_ticks() {
    let at = Instant::from_nanos(1_000 * MS);
    let mut interval = Interval::new(at, Duration::from_millis(20));
    let late = Instant::from_nanos(1_050 * MS);
    assert_eq!(interval.poll_tick(late), Tick::Fired);
    assert_eq!(interval.next_tick().as_nanos(), 1_060 * MS);
}

#[test]
fn waiting_tick_arms_for_its_deadline() {
    let at = Instant::from_nanos(1_000 * MS);
    let mut interval = Interval::new(at, Duration::from_millis(20));
    match interval.poll_tick(Instant::from_nanos(990 * MS)) {
        Tick::Wait(plan) => assert!(plan.arm_backend && !plan.disarm_backend),
        other => panic!("unexpected {:?}", other),
    }
    assert_eq!(interval.timer().deadline, Some(at));
}

#[test]
fn schedule_past_the_clock_overflows() {
    let at = Instant::from_nanos(MAX_INSTANT_NANOS - 5);
    let mut interval = Interval::new(at, Duration::from_nanos(10));
    assert_eq!(interval.poll_tick(at), Tick::Overflow);
    assert_eq!(interval.next_tick(), at);
}

#[test]
fn capped_tick_stays_on_grid() {
    let fired = Instant::from_nanos(7);
    let duration = Duration::from_nanos(3);
    let now = Instant::from_nanos(7 + 3 * 10_000_000_000);
    let next = next_deadline(fired, now, duration).as_nanos();
    assert_eq!(next, 7 + 3 * u128::from(u32::MAX));
    assert_eq!((next - 7) % 3, 0);
}

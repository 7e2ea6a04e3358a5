use tokio_timerd::{
    DelayQueue, Duration, Expired, Expiry, Instant, QueueStep, TimerError, MAX_INSTANT_NANOS,
};

const MS: u128 = 1_000_000;

/// Drives the queue like its stream does, letting simulated time pass until
/// the next entry expires.
fn next_expired<T>(queue: &mut DelayQueue<T>, now: &mut Instant) -> Option<Expired<T>> {
    loop {
        match queue.poll_next(*now) {
            QueueStep::Idle { .. } => return None,
            QueueStep::Ready(expired) => return Some(expired),
            QueueStep::Wait { deadline, plan } => {
                assert!(plan.arm_backend);
                assert!(deadline.as_nanos() > now.as_nanos());
                *now = deadline;
                assert_eq!(queue.poll_expired(*now), Expiry::Elapsed);
            }
        }
    }
}

fn start() -> Instant {
    Instant::from_nanos(1_000 * MS)
}

#[test]
fn yielded_key_is_never_pending_again() {
    let mut queue = DelayQueue::new();
    let mut now = start();
    let key = queue.insert(1_u8, now.checked_add(Duration::from_millis(1)));
    let expired = next_expired(&mut queue, &mut now).unwrap();
    assert_eq!(expired.key(), key);
    let later = queue.insert(2_u8, now.checked_add(Duration::from_millis(1)));
    assert_ne!(later, key);
    assert_eq!(queue.remove(key).value, None);
    assert_eq!(queue.len(), 1);
}

#[test]
fn overflowing_insert_is_refused_before_anything_else() {
    let mut queue: DelayQueue<u8> = DelayQueue::new();
    let now = Instant::from_nanos(MAX_INSTANT_NANOS);
    assert_eq!(
        queue.try_insert(1, now.checked_add(Duration::from_nanos(1))).err(),
        Some(TimerError::DelayOutOfRange)
    );
    assert!(queue.is_empty());
    assert!(queue.try_insert(1, now.checked_add(Duration::zero())).is_ok());
    assert_eq!(queue.len(), 1);
}

#[test]
fn entries_expire_in_deadline_order() {
    let mut queue = DelayQueue::new();
    let mut now = start();
    queue.insert(3_u32, now.checked_add(Duration::from_millis(30)));
    queue.insert(1_u32, now.checked_add(Duration::from_millis(10)));
    queue.insert(2_u32, now.checked_add(Duration::from_millis(20)));

    for expected in 1..=3 {
        let expired = next_expired(&mut queue, &mut now).unwrap();
        assert_eq!(expired.into_inner(), expected);
    }
}

#[test]
fn removing_earliest_entry_uses_next_deadline() {
    let mut queue = DelayQueue::new();
    let mut now = start();
    let first = queue.insert(1_u32, now.checked_add(Duration::from_millis(10)));
    queue.insert(2_u32, now.checked_add(Duration::from_millis(20)));

    assert_eq!(queue.remove(first).value, Some(1));
    let expired = next_expired(&mut queue, &mut now).unwrap();
    assert_eq!(expired.into_inner(), 2);
    assert_eq!(now.as_nanos(), start().as_nanos() + 20 * MS);
}

#[test]
fn old_key_does_not_remove_reused_slot() {
    let mut queue = DelayQueue::new();
    let mut now = start();
    let old = queue.insert(1_u32, now.checked_add(Duration::from_millis(10)));
    assert_eq!(queue.remove(old).value, Some(1));

    queue.insert(2_u32, now.checked_add(Duration::from_millis(10)));
    assert_eq!(queue.remove(old).value, None);
    assert_eq!(next_expired(&mut queue, &mut now).unwrap().into_inner(), 2);
}

#[test]
fn equal_deadlines_are_fifo() {
    let mut queue = DelayQueue::new();
    let mut now = start();
    let deadline = Instant::from_nanos(now.as_nanos() + 10 * MS);
    queue.insert_at(1_u32, deadline);
    queue.insert_at(2_u32, deadline);

    assert_eq!(next_expired(&mut queue, &mut now).unwrap().into_inner(), 1);
    assert_eq!(next_expired(&mut queue, &mut now).unwrap().into_inner(), 2);
}

#[test]
fn overflow_is_rejected() {
    let mut queue = DelayQueue::new();
    let now = start();
    assert!(queue.try_insert(1_u32, now.checked_add(Duration::max_value())).is_err());
    assert_eq!(
        queue.try_insert(1_u32, now.checked_add(Duration::max_value())).err(),
        Some(TimerError::DelayOutOfRange)
    );
    assert!(queue.is_empty());
}

#[test]
fn many_entries_share_one_timer() {
    let mut queue = DelayQueue::new();
    let mut now = start();
    for value in 0..64_u32 {
        queue.insert(value, now.checked_add(Duration::from_millis(1 + u64::from(value % 4))));
    }

    let mut received = Vec::new();
    for _ in 0..64 {
        received.push(next_expired(&mut queue, &mut now).unwrap().into_inner());
    }
    received.sort_unstable();
    assert_eq!(received, (0..64).collect::<Vec<_>>());
    assert!(next_expired(&mut queue, &mut now).is_none());
}

#[test]
fn clear_removes_entries() {
    let mut queue = DelayQueue::new();
    let now = start();
    queue.insert(1_u32, now.checked_add(Duration::from_secs(1)));
    assert_eq!(queue.len(), 1);
    queue.clear();
    assert!(queue.is_empty());
}

#[test]
fn expired_reports_deadline_key_and_value() {
    let mut queue = DelayQueue::new();
    let mut now = start();
    let key = queue.insert("a", now.checked_add(Duration::from_millis(5)));
    let expired = next_expired(&mut queue, &mut now).unwrap();
    assert_eq!(expired.key(), key);
    assert_eq!(expired.deadline().as_nanos(), start().as_nanos() + 5 * MS);
    assert_eq!(expired.into_inner(), "a");
    assert_eq!(queue.len(), 0);
}

#[test]
fn due_entry_is_ready_without_waiting() {
    let mut queue = DelayQueue::new();
    let now = start();
    queue.insert_at(7_u8, Instant::from_nanos(now.as_nanos() - 1));
    match queue.poll_next(now) {
        QueueStep::Ready(expired) => assert_eq!(expired.into_inner(), 7),
        _ => panic!("an overdue entry must be ready"),
    }
}

#[test]
fn waiting_arms_the_timer_once() {
    let mut queue = DelayQueue::new();
    let now = start();
    queue.insert(1_u8, now.checked_add(Duration::from_millis(10)));
    match queue.poll_next(now) {
        QueueStep::Wait { deadline, plan } => {
            assert_eq!(deadline.as_nanos(), now.as_nanos() + 10 * MS);
            assert!(plan.arm_backend && !plan.disarm_backend);
        }
        _ => panic!("a future entry must be waited for"),
    }
    match queue.poll_next(now) {
        QueueStep::Wait { plan, .. } => assert!(!plan.arm_backend && !plan.disarm_backend),
        _ => panic!("a future entry must be waited for"),
    }
}

#[test]
fn removing_the_armed_earliest_entry_disarms() {
    let mut queue = DelayQueue::new();
    let now = start();
    let first = queue.insert(1_u8, now.checked_add(Duration::from_millis(10)));
    let second = queue.insert(2_u8, now.checked_add(Duration::from_millis(20)));
    assert!(matches!(queue.poll_next(now), QueueStep::Wait { .. }));
    let later = queue.remove(second);
    assert_eq!(later.value, Some(2));
    assert!(!later.disarm_backend);
    let earliest = queue.remove(first);
    assert_eq!(earliest.value, Some(1));
    assert!(earliest.disarm_backend);
    assert!(queue.timer().deadline.is_none());
}

#[test]
fn empty_queue_is_idle_and_disarms() {
    let mut queue = DelayQueue::new();
    let now = start();
    let key = queue.insert(1_u8, now.checked_add(Duration::from_millis(10)));
    assert!(matches!(queue.poll_next(now), QueueStep::Wait { .. }));
    queue.remove(key);
    match queue.poll_next(now) {
        QueueStep::Idle { disarm_backend } => assert!(!disarm_backend),
        _ => panic!("an empty queue is idle"),
    }
}

#[test]
fn clear_reports_armed_backend_and_keeps_keys_fresh() {
    let mut queue = DelayQueue::new();
    let now = start();
    let old = queue.insert(1_u8, now.checked_add(Duration::from_millis(10)));
    assert!(matches!(queue.poll_next(now), QueueStep::Wait { .. }));
    assert!(queue.clear());
    let new = queue.insert(2_u8, now.checked_add(Duration::from_millis(10)));
    assert_ne!(old, new);
    assert_eq!(queue.remove(old).value, None);
    assert_eq!(queue.remove(new).value, Some(2));
}

#[test]
fn missing_deadline_leaves_queue_unchanged() {
    let mut queue: DelayQueue<u8> = DelayQueue::new();
    let now = start();
    queue.insert(1, now.checked_add(Duration::from_millis(1)));
    assert_eq!(queue.try_insert(2, None).err(), Some(TimerError::DelayOutOfRange));
    assert_eq!(queue.len(), 1);
}

#[test]
fn fresh_queue_has_room() {
    let queue: DelayQueue<u8> = DelayQueue::new();
    assert!(queue.has_room());
    assert!(queue.is_empty());
}

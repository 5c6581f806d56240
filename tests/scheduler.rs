use watermelon::scheduler::{cancel, clear_all, fire, parse_instant, schedule, schedule_at, NotificationState, ReminderAction};

fn s(x: &str) -> String {
    x.to_string()
}

const NOW: i64 = 1_704_067_200_000_000; // 2024-01-01T00:00:00Z

#[test]
fn instants_are_read_from_rfc3339() {
    assert_eq!(parse_instant("1970-01-01T00:00:01Z"), Some(1_000_000));
    assert_eq!(parse_instant("2024-01-01T00:00:00+00:00"), Some(NOW));
    assert_eq!(parse_instant("2024-01-01T08:00:00+08:00"), Some(NOW));
    assert_eq!(parse_instant("tomorrow"), None);
}

#[test]
fn future_reminder_is_armed() {
    let mut st = NotificationState::new();
    let a = schedule(&mut st, &s("t1"), &s("Buy milk"), "2024-01-01T00:01:00Z", NOW);
    match a {
        Some(ReminderAction::Arm { task_id, title, token, delay_micros }) => {
            assert_eq!(task_id, "t1");
            assert_eq!(title, "Buy milk");
            assert_eq!(token, 0);
            assert_eq!(delay_micros, 60_000_000);
        }
        other => panic!("unexpected {:?}", other),
    }
    assert!(fire(&mut st, &s("t1"), 0));
    // Firing removes the entry: a second wake-up delivers nothing.
    assert!(!fire(&mut st, &s("t1"), 0));
}

#[test]
fn past_reminder_is_delivered_at_once() {
    let mut st = NotificationState::new();
    let a = schedule(&mut st, &s("t1"), &s("Call"), "2023-12-31T23:59:59Z", NOW);
    assert!(matches!(a, Some(ReminderAction::Deliver { .. })));
    let b = schedule_at(&mut st, &s("t2"), &s("Call"), Some(NOW), NOW);
    assert!(matches!(b, Some(ReminderAction::Deliver { .. })));
    assert!(!fire(&mut st, &s("t1"), 0));
}

#[test]
fn unreadable_reminder_only_retires_the_old_one() {
    let mut st = NotificationState::new();
    schedule(&mut st, &s("t1"), &s("x"), "2024-01-02T00:00:00Z", NOW);
    let a = schedule(&mut st, &s("t1"), &s("x"), "garbage", NOW);
    assert!(a.is_none());
    assert!(!fire(&mut st, &s("t1"), 0));
}

#[test]
fn scheduling_twice_leaves_one_live_timer() {
    let mut st = NotificationState::new();
    let first = schedule(&mut st, &s("t1"), &s("x"), "2024-01-02T00:00:00Z", NOW);
    let second = schedule(&mut st, &s("t1"), &s("x"), "2024-01-02T00:00:00Z", NOW);
    assert!(matches!(first, Some(ReminderAction::Arm { token: 0, .. })));
    assert!(matches!(second, Some(ReminderAction::Arm { token: 1, .. })));
    // The first timer wakes and finds itself retired.
    assert!(!fire(&mut st, &s("t1"), 0));
    assert!(fire(&mut st, &s("t1"), 1));
}

#[test]
fn cancel_without_entry_changes_nothing() {
    let mut st = NotificationState::new();
    schedule(&mut st, &s("t1"), &s("x"), "2024-01-02T00:00:00Z", NOW);
    cancel(&mut st, &s("other"));
    assert!(fire(&mut st, &s("t1"), 0));
}

#[test]
fn cancel_retires_the_timer() {
    let mut st = NotificationState::new();
    schedule(&mut st, &s("t1"), &s("x"), "2024-01-02T00:00:00Z", NOW);
    cancel(&mut st, &s("t1"));
    assert!(!fire(&mut st, &s("t1"), 0));
}

#[test]
fn clear_all_retires_every_timer() {
    let mut st = NotificationState::new();
    schedule(&mut st, &s("a"), &s("x"), "2024-01-02T00:00:00Z", NOW);
    schedule(&mut st, &s("b"), &s("y"), "2024-01-03T00:00:00Z", NOW);
    clear_all(&mut st);
    assert!(!fire(&mut st, &s("a"), 0));
    assert!(!fire(&mut st, &s("b"), 1));
}

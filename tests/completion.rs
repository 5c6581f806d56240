use watermelon::calendar::CalendarDate;
use watermelon::completion::{complete_task, plan_next_occurrence, rule_is_valid, CompletionContext};
use watermelon::models::{RecurrenceRule, Task};
use watermelon::scheduler::{fire, NotificationState, ReminderAction};

fn s(x: &str) -> String {
    x.to_string()
}

fn daily(interval: i64, end: Option<&str>) -> RecurrenceRule {
    RecurrenceRule {
        rule_type: s("daily"),
        interval,
        days_of_week: None,
        day_of_month: None,
        end_date: end.map(s),
    }
}

fn task(id: &str, due: Option<&str>, reminder: Option<&str>, rule: Option<RecurrenceRule>) -> Task {
    Task {
        id: s(id),
        title: s("Water the plants"),
        description: Some(s("both balconies")),
        status: s("todo"),
        priority: s("high"),
        category_id: Some(s("home")),
        due_date: due.map(s),
        reminder_time: reminder.map(s),
        recurrence_rule: rule,
        completed_at: None,
        sort_order: 3,
        created_at: s("2024-01-01T00:00:00+00:00"),
        updated_at: s("2024-01-01T00:00:00+00:00"),
        sub_tasks: None,
        tags: None,
        category: None,
    }
}

fn ctx() -> CompletionContext {
    CompletionContext {
        now_text: s("2024-01-10T08:00:00+00:00"),
        now_micros: 1_704_873_600_000_000,
        today: CalendarDate::from_ymd(2024, 1, 10).unwrap(),
        next_id: s("next-1"),
        next_sort_order: -1,
    }
}

#[test]
fn completing_daily_task_spawns_next_day() {
    let mut st = NotificationState::new();
    let t = task("t1", Some("2024-01-10"), Some("2024-01-11T09:00:00+00:00"), Some(daily(1, None)));
    let out = complete_task(&mut st, &s("t1"), Some(t), &ctx()).unwrap();
    let done = &out.result.completed_task;
    assert_eq!(done.status, "completed");
    assert_eq!(done.completed_at.as_deref(), Some("2024-01-10T08:00:00+00:00"));
    let next = out.result.next_task.as_ref().unwrap();
    assert_eq!(next.due_date.as_deref(), Some("2024-01-11"));
    assert_eq!(next.status, "todo");
    assert_eq!(next.title, "Water the plants");
    assert_eq!(next.category_id.as_deref(), Some("home"));
    assert_eq!(next.priority, "high");
    assert_eq!(next.id, "next-1");
    assert_eq!(next.sort_order, -1);
    assert_eq!(next.reminder_time.as_deref(), Some("2024-01-11T09:00:00+00:00"));
    assert_eq!(out.next_due, CalendarDate::from_ymd(2024, 1, 11));
    match &out.reminder {
        Some(ReminderAction::Arm { task_id, token, delay_micros, .. }) => {
            assert_eq!(task_id, "next-1");
            assert_eq!(*token, 0);
            assert_eq!(*delay_micros, 90_000_000_000);
        }
        other => panic!("unexpected {:?}", other),
    }
    assert!(fire(&mut st, &s("next-1"), 0));
}

#[test]
fn completing_past_end_date_spawns_nothing() {
    let mut st = NotificationState::new();
    let t = task("t1", Some("2024-01-10"), None, Some(daily(1, Some("2024-01-10"))));
    let out = complete_task(&mut st, &s("t1"), Some(t), &ctx()).unwrap();
    assert!(out.result.next_task.is_none());
    assert!(out.reminder.is_none());
    let t = task("t2", Some("2024-01-10"), None, Some(daily(1, Some("2024-01-11"))));
    let out = complete_task(&mut st, &s("t2"), Some(t), &ctx()).unwrap();
    assert!(out.result.next_task.is_some());
}

#[test]
fn completing_plain_task_has_no_successor() {
    let mut st = NotificationState::new();
    let out = complete_task(&mut st, &s("t1"), Some(task("t1", None, None, None)), &ctx()).unwrap();
    assert!(out.result.next_task.is_none());
    assert_eq!(out.result.completed_task.id, "t1");
}

#[test]
fn completing_retires_own_reminder() {
    let mut st = NotificationState::new();
    watermelon::scheduler::schedule(&mut st, &s("t1"), &s("x"), "2024-02-01T00:00:00Z", ctx().now_micros);
    complete_task(&mut st, &s("t1"), Some(task("t1", None, None, None)), &ctx()).unwrap();
    assert!(!fire(&mut st, &s("t1"), 0));
}

#[test]
fn completing_unknown_task_is_not_found() {
    let mut st = NotificationState::new();
    let err = complete_task(&mut st, &s("nope"), None, &ctx()).err().unwrap();
    assert_eq!(err.code, "NOT_FOUND");
}

#[test]
fn malformed_rule_is_a_validation_error() {
    let mut st = NotificationState::new();
    let t = task("t1", Some("2024-01-10"), None, Some(daily(0, None)));
    let err = complete_task(&mut st, &s("t1"), Some(t), &ctx()).err().unwrap();
    assert_eq!(err.code, "VALIDATION_ERROR");
    let mut bad_days = daily(1, None);
    bad_days.rule_type = s("weekly");
    bad_days.days_of_week = Some(vec![1, 7]);
    assert!(!rule_is_valid(&bad_days));
    let mut any_dom = daily(1, None);
    any_dom.day_of_month = Some(32);
    assert!(rule_is_valid(&any_dom));
    assert!(rule_is_valid(&daily(2, None)));
}

#[test]
fn missing_or_unreadable_due_date_counts_from_today() {
    let today = CalendarDate::from_ymd(2024, 3, 1).unwrap();
    let r = daily(2, None);
    assert_eq!(plan_next_occurrence(&r, &None, today).unwrap(), CalendarDate::from_ymd(2024, 3, 3));
    assert_eq!(
        plan_next_occurrence(&r, &Some(s("someday")), today).unwrap(),
        CalendarDate::from_ymd(2024, 3, 3)
    );
    assert_eq!(
        plan_next_occurrence(&r, &Some(s("2024-02-28")), today).unwrap(),
        CalendarDate::from_ymd(2024, 3, 1)
    );
}

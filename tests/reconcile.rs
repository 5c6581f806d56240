use watermelon::models::Task;
use watermelon::reconcile::{check_missed_reminders, reconcile_on_startup, schedule_all_future_reminders, text_at_or_before};
use watermelon::scheduler::{fire, NotificationState, ReminderAction};

fn s(x: &str) -> String {
    x.to_string()
}

fn task(id: &str, status: &str, reminder: Option<&str>) -> Task {
    Task {
        id: s(id),
        title: format!("title of {}", id),
        description: None,
        status: s(status),
        priority: s("none"),
        category_id: None,
        due_date: None,
        reminder_time: reminder.map(s),
        recurrence_rule: None,
        completed_at: None,
        sort_order: 0,
        created_at: s("2024-01-01T00:00:00+00:00"),
        updated_at: s("2024-01-01T00:00:00+00:00"),
        sub_tasks: None,
        tags: None,
        category: None,
    }
}

const NOW_TEXT: &str = "2024-01-10T08:00:00+00:00";
const NOW: i64 = 1_704_873_600_000_000;

#[test]
fn text_order_is_byte_order() {
    assert!(text_at_or_before(&s("2024-01-10T07:59:59+00:00"), &s(NOW_TEXT)));
    assert!(text_at_or_before(&s(NOW_TEXT), &s(NOW_TEXT)));
    assert!(!text_at_or_before(&s("2024-01-10T08:00:01+00:00"), &s(NOW_TEXT)));
    assert!(text_at_or_before(&s("2024"), &s("2024-01")));
    assert!(!text_at_or_before(&s("2024-01"), &s("2024")));
}

#[test]
fn startup_delivers_missed_once_and_arms_future() {
    let mut st = NotificationState::new();
    let tasks = vec![
        task("past", "todo", Some("2024-01-09T08:00:00+00:00")),
        task("future", "todo", Some("2024-01-11T08:00:00+00:00")),
        task("done", "completed", Some("2024-01-09T08:00:00+00:00")),
        task("none", "todo", None),
    ];
    let actions = reconcile_on_startup(&mut st, &tasks, &s(NOW_TEXT), NOW);
    let delivered: Vec<&String> = actions
        .iter()
        .filter_map(|a| match a {
            ReminderAction::Deliver { task_id, .. } => Some(task_id),
            _ => None,
        })
        .collect();
    assert_eq!(delivered, vec!["past"]);
    let cleared: Vec<&String> = actions
        .iter()
        .filter_map(|a| match a {
            ReminderAction::ClearReminder { task_id } => Some(task_id),
            _ => None,
        })
        .collect();
    assert_eq!(cleared, vec!["past"]);
    let armed: Vec<(&String, u64, u64)> = actions
        .iter()
        .filter_map(|a| match a {
            ReminderAction::Arm { task_id, token, delay_micros, .. } => Some((task_id, *token, *delay_micros)),
            _ => None,
        })
        .collect();
    assert_eq!(armed, vec![(&s("future"), 0, 86_400_000_000)]);
    assert_eq!(actions.len(), 3);
    assert!(fire(&mut st, &s("future"), 0));
}

#[test]
fn missed_and_future_passes_split_the_tasks() {
    let tasks = vec![
        task("a", "todo", Some("2024-01-10T08:00:00+00:00")),
        task("b", "todo", Some("2024-01-10T08:00:00+00:01")),
    ];
    let missed = check_missed_reminders(&tasks, &s(NOW_TEXT));
    assert_eq!(missed.len(), 2);
    assert!(matches!(&missed[0], ReminderAction::Deliver { task_id, .. } if task_id == "a"));
    assert!(matches!(&missed[1], ReminderAction::ClearReminder { task_id } if task_id == "a"));
    let mut st = NotificationState::new();
    let future = schedule_all_future_reminders(&mut st, &tasks, &s(NOW_TEXT), NOW);
    // "+00:01" sorts after the text of now yet names an earlier instant: it is delivered at once.
    assert_eq!(future.len(), 1);
    assert!(matches!(&future[0], ReminderAction::Deliver { task_id, .. } if task_id == "b"));
}

#[test]
fn reconciling_twice_keeps_one_timer() {
    let mut st = NotificationState::new();
    let tasks = vec![task("f", "todo", Some("2024-01-11T08:00:00+00:00"))];
    reconcile_on_startup(&mut st, &tasks, &s(NOW_TEXT), NOW);
    reconcile_on_startup(&mut st, &tasks, &s(NOW_TEXT), NOW);
    assert!(!fire(&mut st, &s("f"), 0));
    assert!(fire(&mut st, &s("f"), 1));
}

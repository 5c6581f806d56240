use watermelon::calendar::{days_in_month, format_iso_date, parse_iso_date, CalendarDate, MAX_YEAR};
use watermelon::models::RecurrenceRule;
use watermelon::recurrence::{classify, get_next_occurrence, RuleKind};

fn date(y: i32, m: u32, d: u32) -> CalendarDate {
    CalendarDate::from_ymd(y, m, d).unwrap()
}

fn rule(kind: &str, interval: i64) -> RecurrenceRule {
    RecurrenceRule {
        rule_type: kind.to_string(),
        interval,
        days_of_week: None,
        day_of_month: None,
        end_date: None,
    }
}

#[test]
fn daily_adds_interval_days() {
    assert_eq!(get_next_occurrence(&rule("daily", 1), date(2024, 1, 10)), Some(date(2024, 1, 11)));
    assert_eq!(get_next_occurrence(&rule("daily", 3), date(2024, 1, 30)), Some(date(2024, 2, 2)));
    assert_eq!(get_next_occurrence(&rule("daily", 1), date(2023, 12, 31)), Some(date(2024, 1, 1)));
}

#[test]
fn weekly_listed_days_go_to_next_listed_weekday() {
    let mut r = rule("weekly", 1);
    r.days_of_week = Some(vec![5, 1, 3]);
    // 2024-01-08 is a Monday.
    assert_eq!(get_next_occurrence(&r, date(2024, 1, 8)), Some(date(2024, 1, 10)));
    assert_eq!(get_next_occurrence(&r, date(2024, 1, 10)), Some(date(2024, 1, 12)));
    // From Friday the next cycle's Monday.
    assert_eq!(get_next_occurrence(&r, date(2024, 1, 12)), Some(date(2024, 1, 15)));
    // Saturday wraps as well.
    assert_eq!(get_next_occurrence(&r, date(2024, 1, 13)), Some(date(2024, 1, 15)));
}

#[test]
fn weekly_wrap_uses_interval_weeks() {
    let mut r = rule("weekly", 2);
    r.days_of_week = Some(vec![1, 3, 5]);
    assert_eq!(get_next_occurrence(&r, date(2024, 1, 12)), Some(date(2024, 1, 22)));
}

#[test]
fn weekly_without_days_adds_weeks() {
    assert_eq!(get_next_occurrence(&rule("weekly", 2), date(2024, 1, 10)), Some(date(2024, 1, 24)));
    let mut r = rule("weekly", 1);
    r.days_of_week = Some(vec![]);
    assert_eq!(get_next_occurrence(&r, date(2024, 1, 10)), Some(date(2024, 1, 17)));
}

#[test]
fn monthly_clamps_to_month_end() {
    assert_eq!(get_next_occurrence(&rule("monthly", 1), date(2023, 1, 31)), Some(date(2023, 2, 28)));
    assert_eq!(get_next_occurrence(&rule("monthly", 1), date(2024, 1, 31)), Some(date(2024, 2, 29)));
    assert_eq!(get_next_occurrence(&rule("monthly", 1), date(2024, 12, 15)), Some(date(2025, 1, 15)));
    assert_eq!(get_next_occurrence(&rule("monthly", 14), date(2024, 11, 30)), Some(date(2026, 1, 30)));
}

#[test]
fn monthly_day_of_month_is_clamped() {
    let mut r = rule("monthly", 1);
    r.day_of_month = Some(31);
    assert_eq!(get_next_occurrence(&r, date(2024, 3, 15)), Some(date(2024, 4, 30)));
    r.day_of_month = Some(5);
    assert_eq!(get_next_occurrence(&r, date(2024, 3, 15)), Some(date(2024, 4, 5)));
}

#[test]
fn monthly_day_of_month_outside_one_to_thirty_one_is_brought_into_the_month() {
    let mut r = rule("monthly", 1);
    r.day_of_month = Some(0);
    assert_eq!(get_next_occurrence(&r, date(2024, 3, 15)), Some(date(2024, 4, 1)));
    r.day_of_month = Some(-7);
    assert_eq!(get_next_occurrence(&r, date(2024, 3, 15)), Some(date(2024, 4, 1)));
    r.day_of_month = Some(40);
    assert_eq!(get_next_occurrence(&r, date(2024, 1, 15)), Some(date(2024, 2, 29)));
    r.day_of_month = Some(i64::MAX);
    assert_eq!(get_next_occurrence(&r, date(2023, 1, 15)), Some(date(2023, 2, 28)));
}

#[test]
fn custom_behaves_as_daily_and_unknown_adds_one_day() {
    assert_eq!(get_next_occurrence(&rule("custom", 4), date(2024, 2, 27)), Some(date(2024, 3, 2)));
    assert_eq!(get_next_occurrence(&rule("yearly", 9), date(2024, 2, 28)), Some(date(2024, 2, 29)));
}

#[test]
fn beyond_supported_range_gives_none() {
    assert_eq!(get_next_occurrence(&rule("daily", 1), date(MAX_YEAR, 12, 31)), None);
    assert_eq!(get_next_occurrence(&rule("monthly", 1), date(MAX_YEAR, 12, 1)), None);
    assert_eq!(get_next_occurrence(&rule("weekly", i64::MAX), date(2024, 1, 1)), None);
}

#[test]
fn rule_kinds_are_read_from_text() {
    assert_eq!(classify(&"daily".to_string()), RuleKind::Daily);
    assert_eq!(classify(&"weekly".to_string()), RuleKind::Weekly);
    assert_eq!(classify(&"monthly".to_string()), RuleKind::Monthly);
    assert_eq!(classify(&"custom".to_string()), RuleKind::Custom);
    assert_eq!(classify(&"Daily".to_string()), RuleKind::Unrecognized);
}

#[test]
fn calendar_basics() {
    assert_eq!(days_in_month(2023, 2), 28);
    assert_eq!(days_in_month(2024, 2), 29);
    assert_eq!(days_in_month(1900, 2), 28);
    assert_eq!(days_in_month(2000, 2), 29);
    assert_eq!(days_in_month(2024, 4), 30);
    assert!(CalendarDate::from_ymd(2023, 2, 29).is_none());
    assert!(CalendarDate::from_ymd(2024, 13, 1).is_none());
    assert!(date(2024, 1, 11).later_than(&date(2024, 1, 10)));
    assert!(!date(2024, 1, 10).later_than(&date(2024, 1, 10)));
}

#[test]
fn dates_read_and_write_as_iso_text() {
    assert_eq!(parse_iso_date("2024-01-10"), Some(date(2024, 1, 10)));
    assert_eq!(parse_iso_date("2024-02-30"), None);
    assert_eq!(parse_iso_date("not a date"), None);
    assert_eq!(format_iso_date(date(2024, 1, 11)), Some("2024-01-11".to_string()));
    assert_eq!(format_iso_date(date(987, 3, 4)), Some("0987-03-04".to_string()));
}

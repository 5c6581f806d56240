//! The next date of a recurring task.
use crate::calendar::{
    add_days, day_in_range, days_in_month, lemma_day_number_bounds, month_length,
    weekday_from_sunday, CalendarDate, MAX_YEAR, MIN_YEAR,
};
use crate::models::RecurrenceRule;
use vstd::prelude::*;

verus! {

/// The smallest listed weekday strictly after `c`, if there is one.
pub open spec fn next_listed_after(days: Seq<i64>, c: int) -> Option<int>
    decreases days.len(),
{
    if days.len() == 0 {
        None
    } else {
        let x = days.last() as int;
        let rest = next_listed_after(days.drop_last(), c);
        if x <= c {
            rest
        } else {
            match rest {
                Some(m) => if m <= x {
                    Some(m)
                } else {
                    Some(x)
                },
                None => Some(x),
            }
        }
    }
}

/// The smallest listed weekday.
pub open spec fn first_listed(days: Seq<i64>) -> int
    decreases days.len(),
{
    if days.len() <= 1 {
        days[0] as int
    } else {
        let m = first_listed(days.drop_last());
        let x = days.last() as int;
        if x < m {
            x
        } else {
            m
        }
    }
}

pub open spec fn widened(o: Option<i64>) -> Option<int> {
    match o {
        Some(t) => Some(t as int),
        None => None,
    }
}

/// Days from weekday `c` to the next listed weekday: later in the same week,
/// or else the first listed weekday `interval` weeks on.
pub open spec fn weekly_advance(days: Seq<i64>, c: int, interval: int) -> int {
    match next_listed_after(days, c) {
        Some(t) => t - c,
        None => 7 * interval - (c - first_listed(days)),
    }
}

/// `r` is the date `n` days after `d`, or `None` exactly when that date is out of range.
pub open spec fn advanced_by(d: CalendarDate, n: int, r: Option<CalendarDate>) -> bool {
    &&& (r is Some <==> day_in_range(d.number() + n))
    &&& (r matches Some(x) ==> x.wf() && x.number() == d.number() + n)
}

/// `r` is the next occurrence of `rule` after `d`.
#[verifier::opaque]
pub open spec fn recurrence_next(rule: RecurrenceRule, d: CalendarDate, r: Option<CalendarDate>) -> bool {
    if rule.counts_months() {
        r == monthly_target(d, rule.interval as int, rule.day_of_month)
    } else {
        advanced_by(d, rule.day_step(d.weekday()), r)
    }
}

/// There is one answer to whether a next occurrence exists.
pub proof fn lemma_next_exists_once(
    rule: RecurrenceRule,
    d: CalendarDate,
    a: Option<CalendarDate>,
    b: Option<CalendarDate>,
)
    requires
        recurrence_next(rule, d, a),
        recurrence_next(rule, d, b),
    ensures
        a is Some <==> b is Some,
{
    reveal(recurrence_next);
}

/// `k` calendar months after `d`, on day `dom` if given and otherwise on the
/// day of `d`, either brought into the days of the month reached (below 1 to
/// the first, past its end to the last); `None` when the year reached is out
/// of range.
pub open spec fn monthly_target(d: CalendarDate, k: int, dom: Option<i64>) -> Option<CalendarDate> {
    let total = d.year * 12 + (d.month - 1) + k;
    let y = total / 12;
    let m = total % 12 + 1;
    let want: int = match dom {
        Some(x) => x as int,
        None => d.day as int,
    };
    let day = if want < 1 {
        1
    } else if want < month_length(y, m) {
        want
    } else {
        month_length(y, m)
    };
    if MIN_YEAR <= y <= MAX_YEAR {
        Some(CalendarDate { year: y as i32, month: m as u32, day: day as u32 })
    } else {
        None
    }
}

/// A monthly rule on day 31 lands, in a month of thirty days, on day 30 of
/// the month `interval` months on (when that month's year is in range).
pub proof fn lemma_day_31_clamps_to_30(rule: RecurrenceRule, d: CalendarDate, r: Option<CalendarDate>)
    requires
        rule.wf(),
        d.wf(),
        rule.counts_months(),
        rule.day_of_month == Some(31i64),
        MIN_YEAR <= months_on(d, rule.interval as int) / 12 <= MAX_YEAR,
        month_length(
            months_on(d, rule.interval as int) / 12,
            months_on(d, rule.interval as int) % 12 + 1,
        ) == 30,
        recurrence_next(rule, d, r),
    ensures
        r matches Some(x) && x.day == 30 && x.year * 12 + x.month - 1 == months_on(
            d,
            rule.interval as int,
        ),
{
    reveal(recurrence_next);
}

/// The kinds of recurrence rule, as named by `rule_type`.
#[derive(PartialEq, Eq, Structural, Debug, Clone, Copy)]
pub enum RuleKind {
    Daily,
    Weekly,
    Monthly,
    Custom,
    Unrecognized,
}

pub open spec fn kind_of(s: Seq<char>) -> RuleKind {
    if s == "daily"@ {
        RuleKind::Daily
    } else if s == "weekly"@ {
        RuleKind::Weekly
    } else if s == "monthly"@ {
        RuleKind::Monthly
    } else if s == "custom"@ {
        RuleKind::Custom
    } else {
        RuleKind::Unrecognized
    }
}

/// The kind that a `rule_type` text names.
pub fn classify(s: &String) -> (k: RuleKind)
    ensures
        k == kind_of(s@),
{
    if text_is(s, "daily") {
        RuleKind::Daily
    } else if text_is(s, "weekly") {
        RuleKind::Weekly
    } else if text_is(s, "monthly") {
        RuleKind::Monthly
    } else if text_is(s, "custom") {
        RuleKind::Custom
    } else {
        RuleKind::Unrecognized
    }
}

impl RecurrenceRule {
    /// A positive interval and weekdays in 0..=6. Any day of the month is
    /// admitted: it is brought into the month reached.
    pub open spec fn wf(self) -> bool {
        &&& self.interval >= 1
        &&& (self.days_of_week matches Some(v) ==> forall|i: int|
            0 <= i < v@.len() ==> 0 <= #[trigger] v@[i] <= 6)
    }

    pub open spec fn listed_days(self) -> Seq<i64> {
        match self.days_of_week {
            Some(v) => v@,
            None => Seq::empty(),
        }
    }

    pub open spec fn kind(self) -> RuleKind {
        kind_of(self.rule_type@)
    }

    pub open spec fn counts_months(self) -> bool {
        self.kind() == RuleKind::Monthly
    }

    /// For a rule that does not count months: the days from a date with the
    /// given weekday to the next occurrence.
    pub open spec fn day_step(self, weekday: int) -> int {
        match self.kind() {
            RuleKind::Daily | RuleKind::Custom => self.interval as int,
            RuleKind::Weekly => if self.listed_days().len() > 0 {
                weekly_advance(self.listed_days(), weekday, self.interval as int)
            } else {
                7 * self.interval
            },
            _ => 1,
        }
    }
}

pub(crate) fn text_is(s: &String, lit: &str) -> (r: bool)
    ensures
        r == (s@ == lit@),
{
    let owned = lit.to_owned();
    *s == owned
}

/// The next date of a recurring task after `current_date`; `None` only when
/// that date lies beyond the supported range.
pub fn get_next_occurrence(rule: &RecurrenceRule, current_date: CalendarDate) -> (r: Option<
    CalendarDate,
>)
    requires
        rule.wf(),
        current_date.wf(),
    ensures
        recurrence_next(*rule, current_date, r),
        r matches Some(x) ==> x.wf(),
{
    proof {
        reveal(recurrence_next);
    }
    match classify(&rule.rule_type) {
        RuleKind::Daily | RuleKind::Custom => add_days(current_date, rule.interval as u64),
        RuleKind::Weekly => {
            if let Some(days) = &rule.days_of_week {
                if days.len() > 0 {
                    return get_next_weekly_occurrence(current_date, rule.interval, days);
                }
            }
            if rule.interval > 1_000_000_000 {
                proof {
                    lemma_day_number_bounds(current_date);
                }
                return None;
            }
            add_days(current_date, (7 * rule.interval) as u64)
        },
        RuleKind::Monthly => get_next_monthly_occurrence(
            current_date,
            rule.interval,
            rule.day_of_month,
        ),
        RuleKind::Unrecognized => add_days(current_date, 1),
    }
}

/// The next listed weekday after `current_date`, wrapping to the first listed
/// weekday `interval` weeks on.
fn get_next_weekly_occurrence(current_date: CalendarDate, interval: i64, days_of_week: &Vec<i64>) -> (r:
    Option<CalendarDate>)
    requires
        current_date.wf(),
        interval >= 1,
        days_of_week@.len() > 0,
        forall|i: int| 0 <= i < days_of_week@.len() ==> 0 <= #[trigger] days_of_week@[i] <= 6,
    ensures
        advanced_by(
            current_date,
            weekly_advance(days_of_week@, current_date.weekday(), interval as int),
            r,
        ),
{
    let current_day: i64 = match weekday_from_sunday(current_date) {
        Some(w) => w as i64,
        None => return None,
    };
    let ghost c = current_date.weekday();
    let n = days_of_week.len();
    let mut first: i64 = days_of_week[0];
    let mut after: Option<i64> = if days_of_week[0] > current_day {
        Some(days_of_week[0])
    } else {
        None
    };
    proof {
        let t1 = days_of_week@.take(1);
        assert(t1.drop_last() =~= Seq::<i64>::empty());
        assert(t1.last() == days_of_week@[0]);
        assert(next_listed_after(t1.drop_last(), c) is None);
        assert(first_listed(t1) == days_of_week@[0]);
    }
    let mut i: usize = 1;
    while i < n
        invariant
            1 <= i <= n,
            n == days_of_week@.len(),
            current_day == c,
            0 <= c <= 6,
            forall|j: int| 0 <= j < days_of_week@.len() ==> 0 <= #[trigger] days_of_week@[j] <= 6,
            first == first_listed(days_of_week@.take(i as int)),
            widened(after) == next_listed_after(days_of_week@.take(i as int), c),
            0 <= first <= 6,
            after matches Some(t) ==> c < t <= 6,
            after is None ==> first <= c,
        decreases n - i,
    {
        let x = days_of_week[i];
        proof {
            let t = days_of_week@.take(i as int + 1);
            assert(t.drop_last() =~= days_of_week@.take(i as int));
            assert(t.last() == x);
        }
        if x < first {
            first = x;
        }
        if x > current_day {
            match after {
                Some(m) => {
                    if m > x {
                        after = Some(x);
                    }
                },
                None => {
                    after = Some(x);
                },
            }
        }
        i = i + 1;
    }
    proof {
        assert(days_of_week@.take(n as int) =~= days_of_week@);
    }
    let advance: i64 = match after {
        Some(t) => t - current_day,
        None => {
            if interval > 1_000_000_000 {
                proof {
                    lemma_day_number_bounds(current_date);
                }
                return None;
            }
            7 * interval - (current_day - first)
        },
    };
    add_days(current_date, advance as u64)
}

/// The month `k` calendar months after the month of `d`, counted as `year * 12 + month - 1`.
pub open spec fn months_on(d: CalendarDate, k: int) -> int {
    d.year * 12 + d.month - 1 + k
}

/// `interval` months on, on `day_of_month` if given, brought into the days of
/// the month reached.
fn get_next_monthly_occurrence(current_date: CalendarDate, interval: i64, day_of_month: Option<
    i64,
>) -> (r: Option<CalendarDate>)
    requires
        current_date.wf(),
        interval >= 1,
    ensures
        r == monthly_target(current_date, interval as int, day_of_month),
        r matches Some(x) ==> x.wf() && x.year * 12 + x.month - 1 == months_on(
            current_date,
            interval as int,
        ),
{
    let next_month = match add_months(current_date, interval) {
        Some(x) => x,
        None => return None,
    };
    match day_of_month {
        Some(dom) => {
            let max_day = days_in_month(next_month.year, next_month.month);
            let clamped: u32 = if dom < 1 {
                1
            } else if dom < max_day as i64 {
                dom as u32
            } else {
                max_day
            };
            Some(CalendarDate { year: next_month.year, month: next_month.month, day: clamped })
        },
        None => Some(next_month),
    }
}

/// `months` calendar months on, the day cut back to the length of the month reached.
fn add_months(date: CalendarDate, months: i64) -> (r: Option<CalendarDate>)
    requires
        date.wf(),
        months >= 0,
    ensures
        r == monthly_target(date, months as int, None),
        r matches Some(x) ==> x.wf() && x.year * 12 + x.month - 1 == months_on(date, months as int),
{
    if months > 7_000_000 {
        return None;
    }
    let total: i64 = date.year as i64 * 12 + (date.month as i64 - 1) + months;
    let offset: i64 = total - (MIN_YEAR as i64) * 12;
    let new_year_wide: i64 = offset / 12 + MIN_YEAR as i64;
    let new_month: u32 = (offset % 12 + 1) as u32;
    proof {
        assert(new_year_wide == total / 12);
        assert(new_month == total % 12 + 1);
    }
    if new_year_wide > MAX_YEAR as i64 {
        return None;
    }
    let new_year = new_year_wide as i32;
    let max_day = days_in_month(new_year, new_month);
    let new_day = if date.day < max_day {
        date.day
    } else {
        max_day
    };
    Some(CalendarDate { year: new_year, month: new_month, day: new_day })
}

} // verus!

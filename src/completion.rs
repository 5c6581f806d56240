//! Completing a task: the task as completed, and for a recurring task the
//! next instance with its reminder armed.
use crate::calendar::{format_iso_date, formatted_iso_date, parse_iso_date, parsed_iso_date, CalendarDate};
use crate::errors::make_error;
use crate::models::{CompleteTaskResult, RecurrenceRule, Task};
use crate::recurrence::{get_next_occurrence, lemma_next_exists_once, recurrence_next};
use crate::scheduler::{cancel, rfc3339_micros, schedule, schedule_outcome, NotificationState, ReminderAction};
use vstd::prelude::*;

verus! {

/// What the caller supplies besides the task: the time now, as RFC 3339 text
/// and in microseconds since the Unix epoch; today's date; and the id and sort
/// order that a next instance is stored under.
pub struct CompletionContext {
    pub now_text: String,
    pub now_micros: i64,
    pub today: CalendarDate,
    pub next_id: String,
    pub next_sort_order: i64,
}

/// The completed task and its next instance, the due date of that instance,
/// and what to do about the instance's reminder.
pub struct CompletionOutcome {
    pub result: CompleteTaskResult,
    pub next_due: Option<CalendarDate>,
    pub reminder: Option<ReminderAction>,
}

/// The date that a text reads as, if it reads as one.
pub open spec fn date_in(s: Option<String>) -> Option<CalendarDate> {
    match s {
        Some(t) => match parsed_iso_date(t@) {
            Some(p) => Some(CalendarDate { year: p.0 as i32, month: p.1 as u32, day: p.2 as u32 }),
            None => None,
        },
        None => None,
    }
}

/// The date a recurrence counts from: the due date if it reads as a date, else today.
pub open spec fn base_date(due: Option<String>, today: CalendarDate) -> CalendarDate {
    match date_in(due) {
        Some(d) => d,
        None => today,
    }
}

/// `x` lies past the end date of the rule.
pub open spec fn past_end(rule: RecurrenceRule, x: CalendarDate) -> bool {
    date_in(rule.end_date) matches Some(e) && x.is_after(e)
}

/// The rule cannot give a next date after `base`: it is malformed, or the
/// next date lies beyond the supported range.
pub open spec fn cannot_recur(rule: RecurrenceRule, base: CalendarDate) -> bool {
    !rule.wf() || recurrence_next(rule, base, None)
}

pub open spec fn same_rule(a: RecurrenceRule, b: RecurrenceRule) -> bool {
    &&& a.rule_type == b.rule_type
    &&& a.interval == b.interval
    &&& a.day_of_month == b.day_of_month
    &&& a.end_date == b.end_date
    &&& a.days_of_week is Some <==> b.days_of_week is Some
    &&& a.listed_days() == b.listed_days()
}

fn copy_text(o: &Option<String>) -> (r: Option<String>)
    ensures
        r == *o,
{
    match o {
        Some(s) => Some(s.clone()),
        None => None,
    }
}

fn copy_rule(rule: &RecurrenceRule) -> (r: RecurrenceRule)
    ensures
        same_rule(r, *rule),
{
    let days = match &rule.days_of_week {
        Some(v) => {
            let mut w: Vec<i64> = Vec::new();
            let mut i: usize = 0;
            while i < v.len()
                invariant
                    i <= v@.len(),
                    w@ == v@.take(i as int),
                decreases v@.len() - i,
            {
                w.push(v[i]);
                i = i + 1;
                assert(w@ =~= v@.take(i as int));
            }
            assert(w@ =~= v@);
            Some(w)
        },
        None => None,
    };
    RecurrenceRule {
        rule_type: rule.rule_type.clone(),
        interval: rule.interval,
        days_of_week: days,
        day_of_month: rule.day_of_month,
        end_date: copy_text(&rule.end_date),
    }
}

fn read_date(s: &Option<String>) -> (r: Option<CalendarDate>)
    ensures
        r == date_in(*s),
        r matches Some(d) ==> d.wf(),
{
    match s {
        Some(t) => parse_iso_date(t.as_str()),
        None => None,
    }
}

/// Whether the rule is well formed: a positive interval and weekdays in 0..=6.
pub fn rule_is_valid(rule: &RecurrenceRule) -> (r: bool)
    ensures
        r == rule.wf(),
{
    if rule.interval < 1 {
        return false;
    }
    if let Some(days) = &rule.days_of_week {
        let mut i: usize = 0;
        while i < days.len()
            invariant
                rule.days_of_week == Some(*days),
                i <= days@.len(),
                forall|j: int| 0 <= j < i ==> 0 <= #[trigger] days@[j] <= 6,
            decreases days@.len() - i,
        {
            if days[i] < 0 || days[i] > 6 {
                proof {
                    let v = rule.days_of_week.unwrap();
                    assert(v@[i as int] == days@[i as int]);
                    assert(!(0 <= v@[i as int] <= 6));
                    assert(!rule.wf());
                }
                return false;
            }
            i = i + 1;
        }
    }
    true
}

/// When a recurring task is completed: the due date of its next instance, or
/// `None` when that date lies past the rule's end date. The recurrence counts
/// from the due date if it reads as a date, else from `today`.
pub fn plan_next_occurrence(rule: &RecurrenceRule, due_date: &Option<String>, today: CalendarDate) -> (r: Result<Option<CalendarDate>, crate::models::AppError>)
    requires
        today.wf(),
    ensures
        r is Err <==> cannot_recur(*rule, base_date(*due_date, today)),
        r matches Err(e) ==> e.code@ == "VALIDATION_ERROR"@,
        r matches Ok(Some(x)) ==> x.wf() && recurrence_next(
            *rule,
            base_date(*due_date, today),
            Some(x),
        ) && !past_end(*rule, x),
        r matches Ok(None) ==> exists|x: CalendarDate|
            recurrence_next(*rule, base_date(*due_date, today), Some(x)) && #[trigger] past_end(
                *rule,
                x,
            ),
{
    if !rule_is_valid(rule) {
        return Err(make_error("VALIDATION_ERROR", "Malformed recurrence rule"));
    }
    let base = match read_date(due_date) {
        Some(d) => d,
        None => today,
    };
    let found = get_next_occurrence(rule, base);
    proof {
        if recurrence_next(*rule, base, None) {
            lemma_next_exists_once(*rule, base, found, None);
        }
    }
    let next = match found {
        Some(x) => x,
        None => {
            return Err(make_error("VALIDATION_ERROR", "Next occurrence is out of range"));
        },
    };
    match read_date(&rule.end_date) {
        Some(end) => {
            if next.later_than(&end) {
                proof {
                    assert(past_end(*rule, next));
                }
                return Ok(None);
            }
        },
        None => {},
    }
    Ok(Some(next))
}

/// The completed form of `t`, stamped at `now_text`.
pub open spec fn completed_form(c: Task, t: Task, now_text: String) -> bool {
    &&& c.id == t.id
    &&& c.title == t.title
    &&& c.status@ == "completed"@
    &&& c.completed_at == Some(now_text)
    &&& c.updated_at == now_text
    &&& c.due_date == t.due_date
    &&& c.reminder_time == t.reminder_time
    &&& c.priority == t.priority
    &&& c.category_id == t.category_id
    &&& c.description == t.description
    &&& c.recurrence_rule == t.recurrence_rule
    &&& c.sort_order == t.sort_order
    &&& c.created_at == t.created_at
    &&& c.sub_tasks == t.sub_tasks
    &&& c.tags == t.tags
    &&& c.category == t.category
}

/// `n` is the next instance of `t`, due on `due`, stored under the id and sort
/// order of `ctx`.
pub open spec fn next_instance(n: Task, t: Task, due: CalendarDate, ctx: CompletionContext) -> bool {
    &&& n.id == ctx.next_id
    &&& n.title == t.title
    &&& n.description == t.description
    &&& n.status@ == "todo"@
    &&& n.priority == t.priority
    &&& n.category_id == t.category_id
    &&& n.reminder_time == t.reminder_time
    &&& n.due_date matches Some(s) && s@ == formatted_iso_date(
        due.year as int,
        due.month as int,
        due.day as int,
    )
    &&& (due.four_digit_year() ==> (n.due_date matches Some(s) && s@ == due.text()))
    &&& n.completed_at is None
    &&& n.sort_order == ctx.next_sort_order
    &&& t.recurrence_rule matches Some(rule) && n.recurrence_rule matches Some(nr) && same_rule(
        nr,
        rule,
    )
}

/// Complete task `task_id`, found in the store as `existing`: its own
/// reminder is retired first. A recurring task gets its next instance, whose
/// reminder, if it has one, is armed.
pub fn complete_task(
    state: &mut NotificationState,
    task_id: &String,
    existing: Option<Task>,
    ctx: &CompletionContext,
) -> (r: Result<CompletionOutcome, crate::models::AppError>)
    requires
        old(state).wf(),
        old(state).issued() < u64::MAX,
        ctx.today.wf(),
        ctx.next_id@ != task_id@,
    ensures
        final(state).wf(),
        existing is None ==> (r matches Err(e) && e.code@ == "NOT_FOUND"@),
        existing matches Some(t) ==> (r is Err <==> (t.recurrence_rule matches Some(rule)
            && cannot_recur(rule, base_date(t.due_date, ctx.today)))),
        r matches Err(_) ==> final(state)@ == old(state)@.remove(task_id@) && final(state).issued()
            == old(state).issued(),
        r matches Ok(out) ==> existing matches Some(t) && completed_form(
            out.result.completed_task,
            t,
            ctx.now_text,
        ) && match out.result.next_task {
            None => {
                &&& out.next_due is None
                &&& out.reminder is None
                &&& final(state)@ == old(state)@.remove(task_id@)
                &&& final(state).issued() == old(state).issued()
                &&& (t.recurrence_rule matches Some(rule) ==> exists|x: CalendarDate|
                    recurrence_next(rule, base_date(t.due_date, ctx.today), Some(x))
                        && #[trigger] past_end(rule, x))
            },
            Some(n) => {
                &&& out.next_due matches Some(due) && next_instance(n, t, due, *ctx) && (
                t.recurrence_rule matches Some(rule) && recurrence_next(
                    rule,
                    base_date(t.due_date, ctx.today),
                    Some(due),
                ) && !past_end(rule, due))
                &&& match n.reminder_time {
                    Some(rt) => (final(state)@, final(state).issued(), out.reminder)
                        == schedule_outcome(
                        old(state)@.remove(task_id@),
                        old(state).issued(),
                        n.id,
                        n.title,
                        rfc3339_micros(rt@),
                        ctx.now_micros,
                    ),
                    None => {
                        &&& out.reminder is None
                        &&& final(state)@ == old(state)@.remove(task_id@)
                        &&& final(state).issued() == old(state).issued()
                    },
                }
            },
        },
{
    cancel(state, task_id);
    let t = match existing {
        Some(t) => t,
        None => {
            return Err(make_error("NOT_FOUND", "Task not found"));
        },
    };
    let mut next_task: Option<Task> = None;
    let mut next_due: Option<CalendarDate> = None;
    if let Some(rule) = &t.recurrence_rule {
        match plan_next_occurrence(rule, &t.due_date, ctx.today) {
            Err(e) => {
                return Err(e);
            },
            Ok(None) => {},
            Ok(Some(due)) => {
                let due_text = format_iso_date(due);
                next_task = Some(
                    Task {
                        id: ctx.next_id.clone(),
                        title: t.title.clone(),
                        description: copy_text(&t.description),
                        status: "todo".to_owned(),
                        priority: t.priority.clone(),
                        category_id: copy_text(&t.category_id),
                        due_date: due_text,
                        reminder_time: copy_text(&t.reminder_time),
                        recurrence_rule: Some(copy_rule(rule)),
                        completed_at: None,
                        sort_order: ctx.next_sort_order,
                        created_at: ctx.now_text.clone(),
                        updated_at: ctx.now_text.clone(),
                        sub_tasks: Some(Vec::new()),
                        tags: Some(Vec::new()),
                        category: None,
                    },
                );
                next_due = Some(due);
            },
        }
    }
    let reminder = match &next_task {
        Some(n) => match &n.reminder_time {
            Some(rt) => schedule(state, &n.id, &n.title, rt.as_str(), ctx.now_micros),
            None => None,
        },
        None => None,
    };
    let completed_task = Task {
        id: t.id,
        title: t.title,
        description: t.description,
        status: "completed".to_owned(),
        priority: t.priority,
        category_id: t.category_id,
        due_date: t.due_date,
        reminder_time: t.reminder_time,
        recurrence_rule: t.recurrence_rule,
        completed_at: Some(ctx.now_text.clone()),
        sort_order: t.sort_order,
        created_at: t.created_at,
        updated_at: ctx.now_text.clone(),
        sub_tasks: t.sub_tasks,
        tags: t.tags,
        category: t.category,
    };
    Ok(
        CompletionOutcome {
            result: CompleteTaskResult { completed_task, next_task },
            next_due,
            reminder,
        },
    )
}

} // verus!

//! The startup pass over stored reminders: a reminder whose time has passed
//! is delivered once and cleared; one still ahead is armed.
use crate::models::Task;
use crate::recurrence::text_is;
use crate::scheduler::{
    rfc3339_micros, schedule, schedule_outcome, NotificationState, ReminderAction,
};
use vstd::prelude::*;
use vstd::utf8::encode_utf8;

verus! {

/// Byte-wise lexicographic order: `a` sorts at or before `b`.
pub open spec fn bytes_le(a: Seq<u8>, b: Seq<u8>) -> bool {
    exists|i: int|
        0 <= i <= a.len() && i <= b.len() && #[trigger] a.subrange(0, i) == b.subrange(0, i) && (i
            == a.len() || (i < b.len() && a[i] < b[i]))
}

/// String order, as `str` compares: by the bytes of the UTF-8 encodings.
pub open spec fn text_le(a: Seq<char>, b: Seq<char>) -> bool {
    bytes_le(encode_utf8(a), encode_utf8(b))
}

/// Whether `a` sorts at or before `b`.
pub fn text_at_or_before(a: &String, b: &String) -> (r: bool)
    ensures
        r == text_le(a@, b@),
{
    let x = a.as_str().as_bytes();
    let y = b.as_str().as_bytes();
    let mut i: usize = 0;
    while i < x.len() && i < y.len() && x[i] == y[i]
        invariant
            i <= x@.len(),
            i <= y@.len(),
            x@.subrange(0, i as int) == y@.subrange(0, i as int),
        decreases x@.len() - i,
    {
        proof {
            assert(x@.subrange(0, i as int + 1) =~= x@.subrange(0, i as int).push(x@[i as int]));
            assert(y@.subrange(0, i as int + 1) =~= y@.subrange(0, i as int).push(y@[i as int]));
        }
        i = i + 1;
    }
    if i == x.len() {
        return true;
    }
    let r = i < y.len() && x[i] < y[i];
    proof {
        if !r {
            assert forall|j: int|
                0 <= j <= x@.len() && j <= y@.len() && #[trigger] x@.subrange(0, j) == y@.subrange(
                    0,
                    j,
                ) implies !(j == x@.len() || (j < y@.len() && x@[j] < y@[j])) by {
                if j > i {
                    assert(x@.subrange(0, j)[i as int] == y@.subrange(0, j)[i as int]);
                } else if j < i {
                    assert(x@.subrange(0, i as int)[j] == y@.subrange(0, i as int)[j]);
                }
            }
        }
    }
    r
}

pub open spec fn is_todo(t: Task) -> bool {
    t.status@ == "todo"@
}

/// A to-do task whose reminder time has come.
pub open spec fn is_missed(t: Task, now_text: Seq<char>) -> bool {
    is_todo(t) && (t.reminder_time matches Some(r) && text_le(r@, now_text))
}

/// A to-do task whose reminder time is still ahead.
pub open spec fn is_upcoming(t: Task, now_text: Seq<char>) -> bool {
    is_todo(t) && (t.reminder_time matches Some(r) && !text_le(r@, now_text))
}

/// For each missed task in order: deliver its reminder, then clear it.
pub open spec fn missed_actions(tasks: Seq<Task>, now_text: Seq<char>) -> Seq<ReminderAction>
    decreases tasks.len(),
{
    if tasks.len() == 0 {
        Seq::empty()
    } else {
        let t = tasks.last();
        let before = missed_actions(tasks.drop_last(), now_text);
        if is_missed(t, now_text) {
            before + seq![
                ReminderAction::Deliver { task_id: t.id, title: t.title },
                ReminderAction::ClearReminder { task_id: t.id },
            ]
        } else {
            before
        }
    }
}

pub open spec fn optional_action(o: Option<ReminderAction>) -> Seq<ReminderAction> {
    match o {
        Some(a) => seq![a],
        None => Seq::empty(),
    }
}

/// The registry, the tokens handed out and the actions, after scheduling
/// each upcoming task in order.
pub open spec fn upcoming_outcome(
    m: Map<Seq<char>, u64>,
    issued: u64,
    tasks: Seq<Task>,
    now_text: Seq<char>,
    now: i64,
) -> (Map<Seq<char>, u64>, u64, Seq<ReminderAction>)
    decreases tasks.len(),
{
    if tasks.len() == 0 {
        (m, issued, Seq::empty())
    } else {
        let t = tasks.last();
        let before = upcoming_outcome(m, issued, tasks.drop_last(), now_text, now);
        match t.reminder_time {
            Some(r) => if is_upcoming(t, now_text) {
                let o = schedule_outcome(before.0, before.1, t.id, t.title, rfc3339_micros(r@), now);
                (o.0, o.1, before.2 + optional_action(o.2))
            } else {
                before
            },
            None => before,
        }
    }
}

proof fn lemma_upcoming_issued(
    m: Map<Seq<char>, u64>,
    issued: u64,
    tasks: Seq<Task>,
    now_text: Seq<char>,
    now: i64,
)
    requires
        issued + tasks.len() < u64::MAX,
    ensures
        upcoming_outcome(m, issued, tasks, now_text, now).1 <= issued + tasks.len(),
    decreases tasks.len(),
{
    if tasks.len() > 0 {
        lemma_upcoming_issued(m, issued, tasks.drop_last(), now_text, now);
    }
}

/// Deliver and clear the reminder of every to-do task whose reminder time
/// sorts at or before `now_text`.
pub fn check_missed_reminders(tasks: &Vec<Task>, now_text: &String) -> (r: Vec<ReminderAction>)
    ensures
        r@ == missed_actions(tasks@, now_text@),
{
    let mut out: Vec<ReminderAction> = Vec::new();
    let mut i: usize = 0;
    while i < tasks.len()
        invariant
            i <= tasks@.len(),
            out@ == missed_actions(tasks@.take(i as int), now_text@),
        decreases tasks@.len() - i,
    {
        let t = &tasks[i];
        proof {
            assert(tasks@.take(i as int + 1).drop_last() =~= tasks@.take(i as int));
            assert(tasks@.take(i as int + 1).last() == *t);
        }
        if text_is(&t.status, "todo") {
            if let Some(r) = &t.reminder_time {
                if text_at_or_before(r, now_text) {
                    let ghost before = out@;
                    out.push(ReminderAction::Deliver { task_id: t.id.clone(), title: t.title.clone() });
                    out.push(ReminderAction::ClearReminder { task_id: t.id.clone() });
                    proof {
                        assert(out@ =~= before + seq![
                            ReminderAction::Deliver { task_id: t.id, title: t.title },
                            ReminderAction::ClearReminder { task_id: t.id },
                        ]);
                    }
                }
            }
        }
        i = i + 1;
    }
    proof {
        assert(tasks@.take(tasks@.len() as int) =~= tasks@);
    }
    out
}

/// Arm the reminder of every to-do task whose reminder time sorts after `now_text`.
pub fn schedule_all_future_reminders(
    state: &mut NotificationState,
    tasks: &Vec<Task>,
    now_text: &String,
    now: i64,
) -> (r: Vec<ReminderAction>)
    requires
        old(state).wf(),
        old(state).issued() + tasks@.len() < u64::MAX,
    ensures
        final(state).wf(),
        (final(state)@, final(state).issued(), r@) == upcoming_outcome(
            old(state)@,
            old(state).issued(),
            tasks@,
            now_text@,
            now,
        ),
{
    let ghost m0 = state@;
    let ghost k0 = state.issued();
    let mut out: Vec<ReminderAction> = Vec::new();
    let mut i: usize = 0;
    while i < tasks.len()
        invariant
            i <= tasks@.len(),
            state.wf(),
            k0 + tasks@.len() < u64::MAX,
            (state@, state.issued(), out@) == upcoming_outcome(
                m0,
                k0,
                tasks@.take(i as int),
                now_text@,
                now,
            ),
        decreases tasks@.len() - i,
    {
        let t = &tasks[i];
        proof {
            assert(tasks@.take(i as int + 1).drop_last() =~= tasks@.take(i as int));
            assert(tasks@.take(i as int + 1).last() == *t);
            lemma_upcoming_issued(m0, k0, tasks@.take(i as int), now_text@, now);
        }
        if text_is(&t.status, "todo") {
            if let Some(r) = &t.reminder_time {
                if !text_at_or_before(r, now_text) {
                    let ghost before = out@;
                    let o = schedule(state, &t.id, &t.title, r.as_str(), now);
                    match o {
                        Some(a) => {
                            out.push(a);
                        },
                        None => {},
                    }
                    proof {
                        assert(out@ =~= before + optional_action(o));
                    }
                }
            }
        }
        i = i + 1;
    }
    proof {
        assert(tasks@.take(tasks@.len() as int) =~= tasks@);
    }
    out
}

/// The startup pass: first the missed reminders, then the upcoming ones.
pub fn reconcile_on_startup(
    state: &mut NotificationState,
    tasks: &Vec<Task>,
    now_text: &String,
    now: i64,
) -> (r: Vec<ReminderAction>)
    requires
        old(state).wf(),
        old(state).issued() + tasks@.len() < u64::MAX,
    ensures
        final(state).wf(),
        final(state)@ == upcoming_outcome(
            old(state)@,
            old(state).issued(),
            tasks@,
            now_text@,
            now,
        ).0,
        final(state).issued() == upcoming_outcome(
            old(state)@,
            old(state).issued(),
            tasks@,
            now_text@,
            now,
        ).1,
        r@ == missed_actions(tasks@, now_text@) + upcoming_outcome(
            old(state)@,
            old(state).issued(),
            tasks@,
            now_text@,
            now,
        ).2,
{
    let mut actions = check_missed_reminders(tasks, now_text);
    let mut upcoming = schedule_all_future_reminders(state, tasks, now_text, now);
    let ghost a0 = actions@;
    let ghost u0 = upcoming@;
    actions.append(&mut upcoming);
    proof {
        assert(actions@ =~= a0 + u0);
    }
    actions
}

/// How many `Deliver` actions name task `k`.
pub open spec fn deliveries_for(acts: Seq<ReminderAction>, k: Seq<char>) -> nat
    decreases acts.len(),
{
    if acts.len() == 0 {
        0
    } else {
        deliveries_for(acts.drop_last(), k) + match acts.last() {
            ReminderAction::Deliver { task_id, .. } => if task_id@ == k {
                1nat
            } else {
                0nat
            },
            _ => 0nat,
        }
    }
}

/// How many `ClearReminder` actions name task `k`.
pub open spec fn clears_for(acts: Seq<ReminderAction>, k: Seq<char>) -> nat
    decreases acts.len(),
{
    if acts.len() == 0 {
        0
    } else {
        clears_for(acts.drop_last(), k) + match acts.last() {
            ReminderAction::ClearReminder { task_id } => if task_id@ == k {
                1nat
            } else {
                0nat
            },
            _ => 0nat,
        }
    }
}

/// An upcoming task whose instant, as read, has already come: it is delivered at once.
pub open spec fn upcoming_delivers(t: Task, now_text: Seq<char>, now: i64) -> bool {
    is_upcoming(t, now_text) && (t.reminder_time matches Some(r) && (rfc3339_micros(r@) matches Some(
        at,
    ) && at <= now))
}

/// An upcoming task whose instant, as read, lies after `now`: it gets a timer.
pub open spec fn upcoming_arms(t: Task, now_text: Seq<char>, now: i64) -> bool {
    is_upcoming(t, now_text) && (t.reminder_time matches Some(r) && (rfc3339_micros(r@) matches Some(
        at,
    ) && at > now))
}

pub open spec fn distinct_ids(tasks: Seq<Task>) -> bool {
    forall|a: int, b: int|
        0 <= a < tasks.len() && 0 <= b < tasks.len() && a != b ==> (#[trigger] tasks[a]).id@ != (
        #[trigger] tasks[b]).id@
}

proof fn lemma_counts_concat(a: Seq<ReminderAction>, b: Seq<ReminderAction>, k: Seq<char>)
    ensures
        deliveries_for(a + b, k) == deliveries_for(a, k) + deliveries_for(b, k),
        clears_for(a + b, k) == clears_for(a, k) + clears_for(b, k),
    decreases b.len(),
{
    if b.len() == 0 {
        assert(a + b =~= a);
    } else {
        assert((a + b).drop_last() =~= a + b.drop_last());
        assert((a + b).last() == b.last());
        lemma_counts_concat(a, b.drop_last(), k);
    }
}

proof fn lemma_counts_pair(x: ReminderAction, y: ReminderAction, k: Seq<char>)
    ensures
        deliveries_for(seq![x, y], k) == deliveries_for(seq![x], k) + deliveries_for(seq![y], k),
        clears_for(seq![x, y], k) == clears_for(seq![x], k) + clears_for(seq![y], k),
{
    lemma_counts_concat(seq![x], seq![y], k);
    assert(seq![x] + seq![y] =~= seq![x, y]);
}

proof fn lemma_counts_single(x: ReminderAction, k: Seq<char>)
    ensures
        deliveries_for(seq![x], k) == match x {
            ReminderAction::Deliver { task_id, .. } => if task_id@ == k {
                1nat
            } else {
                0nat
            },
            _ => 0nat,
        },
        clears_for(seq![x], k) == match x {
            ReminderAction::ClearReminder { task_id } => if task_id@ == k {
                1nat
            } else {
                0nat
            },
            _ => 0nat,
        },
{
    let one = seq![x];
    assert(one.drop_last() =~= Seq::<ReminderAction>::empty());
    assert(one.last() == x);
    assert(deliveries_for(one.drop_last(), k) == 0);
    assert(clears_for(one.drop_last(), k) == 0);
}

proof fn lemma_missed_counts(tasks: Seq<Task>, now_text: Seq<char>, i: int, n: int)
    requires
        distinct_ids(tasks),
        0 <= i < tasks.len(),
        0 <= n <= tasks.len(),
    ensures
        deliveries_for(missed_actions(tasks.take(n), now_text), tasks[i].id@) == if i < n
            && is_missed(tasks[i], now_text) {
            1nat
        } else {
            0nat
        },
        clears_for(missed_actions(tasks.take(n), now_text), tasks[i].id@) == if i < n && is_missed(
            tasks[i],
            now_text,
        ) {
            1nat
        } else {
            0nat
        },
    decreases n,
{
    let k = tasks[i].id@;
    if n == 0 {
        assert(tasks.take(0) =~= Seq::<Task>::empty());
    } else {
        let p = tasks.take(n);
        assert(p.drop_last() =~= tasks.take(n - 1));
        assert(p.last() == tasks[n - 1]);
        lemma_missed_counts(tasks, now_text, i, n - 1);
        let t = tasks[n - 1];
        if is_missed(t, now_text) {
            let d = ReminderAction::Deliver { task_id: t.id, title: t.title };
            let c = ReminderAction::ClearReminder { task_id: t.id };
            lemma_counts_concat(missed_actions(tasks.take(n - 1), now_text), seq![d, c], k);
            lemma_counts_pair(d, c, k);
            lemma_counts_single(d, k);
            lemma_counts_single(c, k);
            if n - 1 != i {
                assert(t.id@ != k);
            }
        }
    }
}

proof fn lemma_upcoming_counts(
    m: Map<Seq<char>, u64>,
    issued: u64,
    tasks: Seq<Task>,
    now_text: Seq<char>,
    now: i64,
    i: int,
    n: int,
)
    requires
        distinct_ids(tasks),
        0 <= i < tasks.len(),
        0 <= n <= tasks.len(),
    ensures
        deliveries_for(upcoming_outcome(m, issued, tasks.take(n), now_text, now).2, tasks[i].id@)
            == if i < n && upcoming_delivers(tasks[i], now_text, now) {
            1nat
        } else {
            0nat
        },
        clears_for(upcoming_outcome(m, issued, tasks.take(n), now_text, now).2, tasks[i].id@) == 0,
        upcoming_arms(tasks[i], now_text, now) && i < n ==> upcoming_outcome(
            m,
            issued,
            tasks.take(n),
            now_text,
            now,
        ).0.contains_key(tasks[i].id@),
    decreases n,
{
    let k = tasks[i].id@;
    if n == 0 {
        assert(tasks.take(0) =~= Seq::<Task>::empty());
    } else {
        let p = tasks.take(n);
        assert(p.drop_last() =~= tasks.take(n - 1));
        assert(p.last() == tasks[n - 1]);
        lemma_upcoming_counts(m, issued, tasks, now_text, now, i, n - 1);
        let t = tasks[n - 1];
        let before = upcoming_outcome(m, issued, tasks.take(n - 1), now_text, now);
        if n - 1 != i {
            assert(t.id@ != k);
        }
        match t.reminder_time {
            Some(r) => {
                if is_upcoming(t, now_text) {
                    let o = schedule_outcome(
                        before.0,
                        before.1,
                        t.id,
                        t.title,
                        rfc3339_micros(r@),
                        now,
                    );
                    lemma_counts_concat(before.2, optional_action(o.2), k);
                    match o.2 {
                        Some(a) => {
                            lemma_counts_single(a, k);
                        },
                        None => {
                            assert(optional_action(o.2) =~= Seq::<ReminderAction>::empty());
                        },
                    }
                }
            },
            None => {},
        }
    }
}

/// With distinct task ids, the pass over missed reminders delivers a to-do task
/// whose reminder time has come exactly once and clears its reminder once.
pub proof fn lemma_missed_delivered_once(tasks: Seq<Task>, now_text: Seq<char>, i: int)
    requires
        distinct_ids(tasks),
        0 <= i < tasks.len(),
        is_missed(tasks[i], now_text),
    ensures
        deliveries_for(missed_actions(tasks, now_text), tasks[i].id@) == 1,
        clears_for(missed_actions(tasks, now_text), tasks[i].id@) == 1,
{
    assert(tasks.take(tasks.len() as int) =~= tasks);
    lemma_missed_counts(tasks, now_text, i, tasks.len() as int);
}

/// With distinct task ids, the pass over upcoming reminders leaves a live
/// timer for a to-do task whose reminder lies ahead, at an instant after
/// `now`, and neither delivers it nor clears its reminder.
pub proof fn lemma_upcoming_armed(
    m: Map<Seq<char>, u64>,
    issued: u64,
    tasks: Seq<Task>,
    now_text: Seq<char>,
    now: i64,
    i: int,
)
    requires
        distinct_ids(tasks),
        0 <= i < tasks.len(),
        upcoming_arms(tasks[i], now_text, now),
    ensures
        upcoming_outcome(m, issued, tasks, now_text, now).0.contains_key(tasks[i].id@),
        deliveries_for(upcoming_outcome(m, issued, tasks, now_text, now).2, tasks[i].id@) == 0,
        clears_for(upcoming_outcome(m, issued, tasks, now_text, now).2, tasks[i].id@) == 0,
{
    assert(tasks.take(tasks.len() as int) =~= tasks);
    lemma_upcoming_counts(m, issued, tasks, now_text, now, i, tasks.len() as int);
}

/// At startup, with distinct task ids: a to-do task whose reminder time has
/// come is delivered exactly once and its reminder is cleared; a to-do task
/// whose reminder lies ahead, at an instant after `now`, ends with a live
/// timer, is not delivered, and keeps its reminder.
pub proof fn lemma_startup_delivers_once(
    m: Map<Seq<char>, u64>,
    issued: u64,
    tasks: Seq<Task>,
    now_text: Seq<char>,
    now: i64,
    i: int,
)
    requires
        distinct_ids(tasks),
        0 <= i < tasks.len(),
    ensures
        ({
            let up = upcoming_outcome(m, issued, tasks, now_text, now);
            let acts = missed_actions(tasks, now_text) + up.2;
            let k = tasks[i].id@;
            &&& is_missed(tasks[i], now_text) ==> deliveries_for(acts, k) == 1 && clears_for(acts, k) == 1
            &&& upcoming_arms(tasks[i], now_text, now) ==> {
                &&& up.0.contains_key(k)
                &&& deliveries_for(acts, k) == 0
                &&& clears_for(acts, k) == 0
            }
        }),
{
    let n = tasks.len() as int;
    assert(tasks.take(n) =~= tasks);
    lemma_missed_counts(tasks, now_text, i, n);
    lemma_upcoming_counts(m, issued, tasks, now_text, now, i, n);
    let up = upcoming_outcome(m, issued, tasks, now_text, now);
    lemma_counts_concat(missed_actions(tasks, now_text), up.2, tasks[i].id@);
}

} // verus!

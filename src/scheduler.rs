//! The registry of armed reminders. Each armed reminder is a timer that the
//! caller runs; the registry hands it a token, and the timer delivers on
//! waking only if its token is still the live one for its task.
use vstd::prelude::*;

verus! {

/// What a caller does after a scheduling decision.
#[derive(Debug)]
pub enum ReminderAction {
    /// Deliver the task's reminder now.
    Deliver { task_id: String, title: String },
    /// Start a timer that sleeps `delay_micros` and then calls `fire` with `token`.
    Arm { task_id: String, title: String, token: u64, delay_micros: u64 },
    /// Clear the task's stored reminder time.
    ClearReminder { task_id: String },
}

/// A live reminder: the task it belongs to and the token of its timer.
#[derive(Debug)]
pub struct ReminderEntry {
    pub task_id: String,
    pub token: u64,
}

/// The live reminders, at most one per task.
#[derive(Debug)]
pub struct NotificationState {
    entries: Vec<ReminderEntry>,
    next_token: u64,
}

/// The instant an RFC 3339 timestamp names, in microseconds since the Unix
/// epoch, as chrono reads it.
pub uninterp spec fn rfc3339_micros(s: Seq<char>) -> Option<i64>;

/// Relies on chrono's `DateTime::parse_from_rfc3339` and
/// `DateTime::timestamp_micros`: the instant a timestamp names, or `None`
/// when the text is no RFC 3339 timestamp.
#[verifier::external_body]
pub fn parse_instant(s: &str) -> (r: Option<i64>)
    ensures
        r == rfc3339_micros(s@),
{
    match chrono::DateTime::parse_from_rfc3339(s) {
        Ok(t) => Some(t.timestamp_micros()),
        Err(_) => None,
    }
}

pub open spec fn has_entry(s: Seq<ReminderEntry>, k: Seq<char>) -> bool {
    exists|i: int| 0 <= i < s.len() && (#[trigger] s[i]).task_id@ == k
}

pub open spec fn index_of(s: Seq<ReminderEntry>, k: Seq<char>) -> int {
    choose|i: int| 0 <= i < s.len() && (#[trigger] s[i]).task_id@ == k
}

pub open spec fn unique_ids(s: Seq<ReminderEntry>) -> bool {
    forall|i: int, j: int|
        0 <= i < s.len() && 0 <= j < s.len() && i != j ==> (#[trigger] s[i]).task_id@ != (
        #[trigger] s[j]).task_id@
}

/// The entries as a map from task id to token.
pub open spec fn map_of(s: Seq<ReminderEntry>) -> Map<Seq<char>, u64> {
    Map::new(|k: Seq<char>| has_entry(s, k), |k: Seq<char>| s[index_of(s, k)].token)
}

/// Every live token was issued before `bound`.
pub open spec fn tokens_below(m: Map<Seq<char>, u64>, bound: u64) -> bool {
    forall|k: Seq<char>| m.contains_key(k) ==> #[trigger] m[k] < bound
}

/// The registry after scheduling task `task_id` for the instant `at`, at time
/// `now`, with `issued` tokens handed out so far; and what the caller does next.
pub open spec fn schedule_outcome(
    m: Map<Seq<char>, u64>,
    issued: u64,
    task_id: String,
    title: String,
    at: Option<i64>,
    now: i64,
) -> (Map<Seq<char>, u64>, u64, Option<ReminderAction>) {
    let cleared = m.remove(task_id@);
    match at {
        None => (cleared, issued, None),
        Some(t) => if t <= now {
            (cleared, issued, Some(ReminderAction::Deliver { task_id, title }))
        } else {
            (
                cleared.insert(task_id@, issued),
                (issued + 1) as u64,
                Some(
                    ReminderAction::Arm { task_id, title, token: issued, delay_micros: (t - now) as u64 },
                ),
            )
        },
    }
}

/// Whether a timer with `token` for `task_id` is the live one, so that it delivers on waking.
pub open spec fn fires(m: Map<Seq<char>, u64>, task_id: Seq<char>, token: u64) -> bool {
    m.contains_key(task_id) && m[task_id] == token
}

/// Scheduling a task twice in a row for the same instant leaves one live timer
/// for it, the second: the first timer's token no longer fires, and no other
/// task's reminder changes. When the instant is not ahead of `now`, or cannot
/// be read, no timer is left for the task at all.
pub proof fn lemma_schedule_twice_leaves_one(
    m: Map<Seq<char>, u64>,
    issued: u64,
    task_id: String,
    title: String,
    at: Option<i64>,
    now: i64,
)
    requires
        issued < u64::MAX - 1,
    ensures
        ({
            let first = schedule_outcome(m, issued, task_id, title, at, now);
            let second = schedule_outcome(first.0, first.1, task_id, title, at, now);
            &&& (at matches Some(t) && t > now) ==> {
                &&& fires(second.0, task_id@, first.1)
                &&& !fires(second.0, task_id@, issued)
                &&& second.0.remove(task_id@) == m.remove(task_id@)
            }
            &&& !(at matches Some(t) && t > now) ==> !second.0.contains_key(task_id@)
        }),
{
    let first = schedule_outcome(m, issued, task_id, title, at, now);
    let second = schedule_outcome(first.0, first.1, task_id, title, at, now);
    if at matches Some(t) && t > now {
        assert(second.0.remove(task_id@) =~= m.remove(task_id@));
    }
}

/// Cancelling a task that has no live reminder leaves the registry as it was.
pub proof fn lemma_cancel_absent_is_noop(m: Map<Seq<char>, u64>, task_id: Seq<char>)
    requires
        !m.contains_key(task_id),
    ensures
        m.remove(task_id) == m,
{
    assert(m.remove(task_id) =~= m);
}

proof fn lemma_map_of_lookup(s: Seq<ReminderEntry>, i: int)
    requires
        unique_ids(s),
        0 <= i < s.len(),
    ensures
        map_of(s).contains_key(s[i].task_id@),
        map_of(s)[s[i].task_id@] == s[i].token,
{
    let k = s[i].task_id@;
    assert(has_entry(s, k));
    let j = index_of(s, k);
    assert(s[j].task_id@ == k);
}

proof fn lemma_map_of_push(s: Seq<ReminderEntry>, e: ReminderEntry)
    requires
        unique_ids(s),
        !has_entry(s, e.task_id@),
    ensures
        unique_ids(s.push(e)),
        map_of(s.push(e)) == map_of(s).insert(e.task_id@, e.token),
{
    let t = s.push(e);
    assert forall|i: int, j: int|
        0 <= i < t.len() && 0 <= j < t.len() && i != j implies (#[trigger] t[i]).task_id@ != (
        #[trigger] t[j]).task_id@ by {
        if i < s.len() && j < s.len() {
            assert(t[i] == s[i] && t[j] == s[j]);
        } else if i < s.len() {
            assert(t[i] == s[i]);
        } else {
            assert(t[j] == s[j]);
        }
    }
    let a = map_of(t);
    let b = map_of(s).insert(e.task_id@, e.token);
    assert forall|k: Seq<char>| a.contains_key(k) <==> b.contains_key(k) by {
        if has_entry(s, k) {
            let i = choose|i: int| 0 <= i < s.len() && (#[trigger] s[i]).task_id@ == k;
            assert(t[i] == s[i]);
        }
        if has_entry(t, k) && k != e.task_id@ {
            let i = choose|i: int| 0 <= i < t.len() && (#[trigger] t[i]).task_id@ == k;
            assert(t[i] == s[i]);
        }
        if k == e.task_id@ {
            assert(t[t.len() - 1] == e);
        }
    }
    assert forall|k: Seq<char>| a.contains_key(k) implies a[k] == b[k] by {
        lemma_map_of_lookup(t, index_of(t, k));
        if k == e.task_id@ {
            assert(t[t.len() - 1] == e);
            lemma_map_of_lookup(t, t.len() - 1);
        } else {
            let i = index_of(t, k);
            assert(t[i] == s[i]);
            lemma_map_of_lookup(s, i);
        }
    }
    assert(a =~= b);
}

proof fn lemma_map_of_remove(s: Seq<ReminderEntry>, i: int)
    requires
        unique_ids(s),
        0 <= i < s.len(),
    ensures
        unique_ids(s.remove(i)),
        map_of(s.remove(i)) == map_of(s).remove(s[i].task_id@),
{
    let t = s.remove(i);
    let gone = s[i].task_id@;
    assert forall|x: int, y: int|
        0 <= x < t.len() && 0 <= y < t.len() && x != y implies (#[trigger] t[x]).task_id@ != (
        #[trigger] t[y]).task_id@ by {
        let sx = if x < i {
            x
        } else {
            x + 1
        };
        let sy = if y < i {
            y
        } else {
            y + 1
        };
        assert(t[x] == s[sx] && t[y] == s[sy]);
    }
    let a = map_of(t);
    let b = map_of(s).remove(gone);
    assert forall|k: Seq<char>| a.contains_key(k) <==> b.contains_key(k) by {
        if has_entry(t, k) {
            let x = choose|x: int| 0 <= x < t.len() && (#[trigger] t[x]).task_id@ == k;
            let sx = if x < i {
                x
            } else {
                x + 1
            };
            assert(t[x] == s[sx]);
        }
        if has_entry(s, k) && k != gone {
            let x = choose|x: int| 0 <= x < s.len() && (#[trigger] s[x]).task_id@ == k;
            if x < i {
                assert(t[x] == s[x]);
            } else {
                assert(t[x - 1] == s[x]);
            }
        }
    }
    assert forall|k: Seq<char>| a.contains_key(k) implies a[k] == b[k] by {
        let x = index_of(t, k);
        lemma_map_of_lookup(t, x);
        let sx = if x < i {
            x
        } else {
            x + 1
        };
        assert(t[x] == s[sx]);
        lemma_map_of_lookup(s, sx);
    }
    assert(a =~= b);
}

impl View for NotificationState {
    type V = Map<Seq<char>, u64>;

    closed spec fn view(&self) -> Map<Seq<char>, u64> {
        map_of(self.entries@)
    }
}

impl NotificationState {
    /// The entries name distinct tasks, and every token was issued before `next_token`.
    pub closed spec fn wf(&self) -> bool {
        &&& unique_ids(self.entries@)
        &&& forall|i: int|
            0 <= i < self.entries@.len() ==> (#[trigger] self.entries@[i]).token < self.next_token
    }

    /// How many tokens have been handed out.
    pub closed spec fn issued(&self) -> u64 {
        self.next_token
    }

    /// No live reminders, no token handed out yet.
    pub fn new() -> (r: NotificationState)
        ensures
            r.wf(),
            r@ == Map::<Seq<char>, u64>::empty(),
            r.issued() == 0,
    {
        let r = NotificationState { entries: Vec::new(), next_token: 0 };
        assert(r@ =~= Map::<Seq<char>, u64>::empty());
        r
    }

    /// How many tokens have been handed out.
    pub fn tokens_issued(&self) -> (r: u64)
        ensures
            r == self.issued(),
    {
        self.next_token
    }

    /// Every live token was issued before the next one, so a fresh token is
    /// never that of a live timer.
    pub proof fn lemma_tokens_below(&self)
        requires
            self.wf(),
        ensures
            tokens_below(self@, self.issued()),
    {
        assert forall|k: Seq<char>| self@.contains_key(k) implies #[trigger] self@[k]
            < self.issued() by {
            lemma_map_of_lookup(self.entries@, index_of(self.entries@, k));
        }
    }

    /// Position of the entry for `task_id`, if there is one.
    fn find(&self, task_id: &String) -> (r: Option<usize>)
        requires
            self.wf(),
        ensures
            r is None <==> !self@.contains_key(task_id@),
            r matches Some(i) ==> i < self.entries@.len() && self.entries@[i as int].task_id@
                == task_id@,
    {
        let mut i: usize = 0;
        while i < self.entries.len()
            invariant
                self.wf(),
                i <= self.entries@.len(),
                forall|j: int| 0 <= j < i ==> (#[trigger] self.entries@[j]).task_id@ != task_id@,
            decreases self.entries@.len() - i,
        {
            if self.entries[i].task_id == *task_id {
                proof {
                    lemma_map_of_lookup(self.entries@, i as int);
                }
                return Some(i);
            }
            i = i + 1;
        }
        None
    }
}

/// Retire the live reminder of `task_id`, if any; its timer will not deliver.
pub fn cancel(state: &mut NotificationState, task_id: &String)
    requires
        old(state).wf(),
    ensures
        final(state).wf(),
        final(state)@ == old(state)@.remove(task_id@),
        final(state).issued() == old(state).issued(),
{
    match state.find(task_id) {
        Some(i) => {
            proof {
                lemma_map_of_remove(state.entries@, i as int);
            }
            state.entries.remove(i);
        },
        None => {
            assert(state@ =~= state@.remove(task_id@));
        },
    }
}

/// Arm the reminder of `task_id` for the instant `at` (`None`: no readable
/// instant), the time now being `now`. Any earlier reminder of the task is
/// retired first. A reminder due already is delivered at once and arms
/// nothing; one due later gets a fresh token.
pub fn schedule_at(state: &mut NotificationState, task_id: &String, title: &String, at: Option<i64>, now: i64) -> (r: Option<ReminderAction>)
    requires
        old(state).wf(),
        old(state).issued() < u64::MAX,
    ensures
        final(state).wf(),
        (final(state)@, final(state).issued(), r) == schedule_outcome(
            old(state)@,
            old(state).issued(),
            *task_id,
            *title,
            at,
            now,
        ),
        old(state)@.contains_key(task_id@) ==> !fires(
            final(state)@,
            task_id@,
            old(state)@[task_id@],
        ),
{
    proof {
        state.lemma_tokens_below();
    }
    cancel(state, task_id);
    match at {
        None => None,
        Some(t) => {
            if t <= now {
                Some(ReminderAction::Deliver { task_id: task_id.clone(), title: title.clone() })
            } else {
                let token = state.next_token;
                let e = ReminderEntry { task_id: task_id.clone(), token };
                proof {
                    assert(!state@.contains_key(task_id@));
                    assert(!has_entry(state.entries@, e.task_id@));
                    lemma_map_of_push(state.entries@, e);
                }
                state.entries.push(e);
                state.next_token = state.next_token + 1;
                let delay_micros = (t as i128 - now as i128) as u64;
                Some(
                    ReminderAction::Arm {
                        task_id: task_id.clone(),
                        title: title.clone(),
                        token,
                        delay_micros,
                    },
                )
            }
        },
    }
}

/// Arm the reminder of `task_id` for the RFC 3339 timestamp `reminder_time`;
/// an unreadable timestamp only retires the earlier reminder.
pub fn schedule(state: &mut NotificationState, task_id: &String, title: &String, reminder_time: &str, now: i64) -> (r: Option<ReminderAction>)
    requires
        old(state).wf(),
        old(state).issued() < u64::MAX,
    ensures
        final(state).wf(),
        (final(state)@, final(state).issued(), r) == schedule_outcome(
            old(state)@,
            old(state).issued(),
            *task_id,
            *title,
            rfc3339_micros(reminder_time@),
            now,
        ),
        old(state)@.contains_key(task_id@) ==> !fires(
            final(state)@,
            task_id@,
            old(state)@[task_id@],
        ),
{
    let at = parse_instant(reminder_time);
    schedule_at(state, task_id, title, at, now)
}

/// A timer of `task_id` with `token` has woken: whether it delivers. A live
/// timer's entry goes away with it.
pub fn fire(state: &mut NotificationState, task_id: &String, token: u64) -> (r: bool)
    requires
        old(state).wf(),
    ensures
        final(state).wf(),
        r == fires(old(state)@, task_id@, token),
        final(state)@ == if r {
            old(state)@.remove(task_id@)
        } else {
            old(state)@
        },
        final(state).issued() == old(state).issued(),
{
    match state.find(task_id) {
        Some(i) => {
            proof {
                lemma_map_of_lookup(state.entries@, i as int);
            }
            if state.entries[i].token == token {
                proof {
                    lemma_map_of_remove(state.entries@, i as int);
                }
                state.entries.remove(i);
                true
            } else {
                false
            }
        },
        None => false,
    }
}

/// Retire every live reminder.
pub fn clear_all(state: &mut NotificationState)
    requires
        old(state).wf(),
    ensures
        final(state).wf(),
        final(state)@ == Map::<Seq<char>, u64>::empty(),
        final(state).issued() == old(state).issued(),
{
    state.entries = Vec::new();
    assert(state@ =~= Map::<Seq<char>, u64>::empty());
}

} // verus!

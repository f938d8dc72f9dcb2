//! Properties that hold across calls, stated over the account contents that
//! the operations' contracts speak of.
use vstd::prelude::*;
use crate::account::{
    bump_day, count_on, credit, days_distinct, keeps_one_time, keeps_regular, lemma_day_at, lemma_first_task_unique,
    first_break, first_task, lemma_first_break_unique, spans, AccountView,
};
use crate::ledger::{records_valid, TodoListV1};
use crate::types::{Break, WeeklyWorkingHours, WorkingHours, DEFAULT_DAY_END, DEFAULT_DAY_START};

verus! {

/// Counting a completion raises that day's count by one, leaves every other
/// day's count as it was, and keeps each day counted once.
pub proof fn lemma_bump_day(s: Seq<(u64, u32)>, day: u64)
    requires
        days_distinct(s),
        count_on(s, day) < u32::MAX,
    ensures
        days_distinct(bump_day(s, day)),
        count_on(bump_day(s, day), day) == count_on(s, day) + 1,
        forall|d: u64| d != day ==> count_on(bump_day(s, day), d) == count_on(s, d),
{
    let n = bump_day(s, day);
    if exists|i: int| 0 <= i < s.len() && s[i].0 == day {
        let i = choose|i: int| 0 <= i < s.len() && s[i].0 == day;
        lemma_day_at(s, day, i);
        assert(days_distinct(n));
        lemma_day_at(n, day, i);
        assert forall|d: u64| d != day implies count_on(n, d) == count_on(s, d) by {
            if exists|k: int| 0 <= k < s.len() && s[k].0 == d {
                let k = choose|k: int| 0 <= k < s.len() && s[k].0 == d;
                lemma_day_at(s, d, k);
                lemma_day_at(n, d, k);
            } else {
                assert(!exists|k: int| 0 <= k < n.len() && n[k].0 == d);
            }
        }
    } else {
        assert(days_distinct(n));
        lemma_day_at(n, day, s.len() as int);
        assert forall|d: u64| d != day implies count_on(n, d) == count_on(s, d) by {
            if exists|k: int| 0 <= k < s.len() && s[k].0 == d {
                let k = choose|k: int| 0 <= k < s.len() && s[k].0 == d;
                lemma_day_at(s, d, k);
                lemma_day_at(n, d, k);
            } else {
                assert(!exists|k: int| 0 <= k < n.len() && n[k].0 == d);
            }
        }
    }
}

/// Until an account adds a task it has none: no other operation on its
/// tasks creates one.
pub proof fn law_no_tasks_until_added(
    v: AccountView,
    id: u64,
    day: u64,
    title: String,
    description: String,
    priority: u8,
    deadline: Option<u64>,
    estimated_time: Option<i64>,
    reward_points: i64,
    preferred_start_time: Option<i64>,
    preferred_end_time: Option<i64>,
)
    requires
        v.tasks.len() == 0,
    ensures
        v.without_task(id).tasks.len() == 0,
        v.with_task_details(
            id,
            title,
            description,
            priority,
            deadline,
            estimated_time,
            reward_points,
            preferred_start_time,
            preferred_end_time,
        ).tasks.len() == 0,
        v.completed(id, day).tasks.len() == 0,
{
    v.tasks.lemma_filter_len(crate::account::keeps_task(id));
}

/// Completing the same task twice credits its points twice (each time
/// floored at zero) and counts two completions on the day.
pub proof fn law_completing_twice_counts_twice(v: AccountView, id: u64, day: u64)
    requires
        v.wf(),
        v.has_task(id),
        v.can_complete(id, day),
        v.completed(id, day).can_complete(id, day),
    ensures
        ({
            let r = v.tasks[v.task_index(id)].reward_points;
            let w = v.completed(id, day).completed(id, day);
            &&& w.points == credit(credit(v.points, r), r)
            &&& r >= 0 ==> w.points == v.points + 2 * r
            &&& count_on(w.completions, day) == count_on(v.completions, day) + 2
            &&& w.tasks[v.task_index(id)].completed
        }),
{
    let j = v.task_index(id);
    assert(first_task(v.tasks, id, j));
    let u = v.completed(id, day);
    assert(first_task(u.tasks, id, j));
    lemma_first_task_unique(u.tasks, id, j);
    lemma_bump_day(v.completions, day);
    lemma_bump_day(u.completions, day);
}

/// A credit from completing a task never leaves the balance below zero,
/// whatever the task's points.
pub proof fn law_balance_floored(v: AccountView, id: u64, day: u64)
    requires
        v.wf(),
        v.can_complete(id, day),
    ensures
        v.completed(id, day).points >= 0,
{
}

/// A redemption succeeds exactly when the reward exists and the balance
/// covers its cost; then the cost is taken, else the balance stays.
pub proof fn law_redeem_exactly_when_covered(v: AccountView, id: u64)
    requires
        v.redeem_fits(id),
    ensures
        v.can_redeem(id) <==> (v.has_reward(id) && v.points >= v.rewards[v.reward_index(id)].cost),
        v.can_redeem(id) ==> v.redeemed(id).points == v.points - v.rewards[v.reward_index(id)].cost,
        !v.can_redeem(id) ==> v.redeemed(id) == v,
{
}

/// Breaks are matched by exact equality of their span: removing by the span
/// a weekly break was added with removes it, and any other span leaves it.
pub proof fn law_weekly_break_removed_by_exact_span(v: AccountView, b: Break, start: i64, end: i64, date: Option<u64>)
    requires
        b.is_regular,
    ensures
        spans(b, start, end) ==> !v.with_break(b).without_breaks(start, end, true, date).regular_breaks.contains(b),
        !spans(b, start, end) ==> v.with_break(b).without_breaks(start, end, true, date).regular_breaks
            == v.without_breaks(start, end, true, date).regular_breaks.push(b),
{
    let keep = keeps_regular(start, end);
    v.regular_breaks.lemma_filter_push(b, keep);
    if spans(b, start, end) {
        let f = v.regular_breaks.push(b).filter(keep);
        v.regular_breaks.push(b).filter_lemma(keep);
        if f.contains(b) {
            let i = choose|i: int| 0 <= i < f.len() && f[i] == b;
            assert(keep(f[i]));
        }
    }
}

/// Moving breaks matches their span exactly too: a weekly break added with a
/// span that no other weekly break has is moved by that span, and a move by
/// any other span leaves it where it is.
pub proof fn law_weekly_break_moved_by_exact_span(
    v: AccountView,
    b: Break,
    start: i64,
    end: i64,
    new_start: i64,
    new_end: i64,
    new_date: Option<u64>,
)
    requires
        b.is_regular,
        forall|k: int| 0 <= k < v.regular_breaks.len() ==> !spans(v.regular_breaks[k], b.start_time, b.end_time),
    ensures
        spans(b, start, end) ==> v.with_break(b).with_break_moved(start, end, new_start, new_end, true, new_date).regular_breaks
            == v.regular_breaks.push(Break { start_time: new_start, end_time: new_end, ..b }),
        !spans(b, start, end) ==> v.with_break(b).with_break_moved(start, end, new_start, new_end, true, new_date).regular_breaks.last()
            == b,
{
    let w = v.with_break(b);
    let n = v.regular_breaks.len() as int;
    assert(w.regular_breaks == v.regular_breaks.push(b));
    if spans(b, start, end) {
        assert(first_break(w.regular_breaks, start, end, n));
        lemma_first_break_unique(w.regular_breaks, start, end, n);
        assert(w.with_break_moved(start, end, new_start, new_end, true, new_date).regular_breaks
            =~= v.regular_breaks.push(Break { start_time: new_start, end_time: new_end, ..b }));
    } else if exists|j: int| first_break(w.regular_breaks, start, end, j) {
        let j = choose|j: int| first_break(w.regular_breaks, start, end, j);
        assert(j != n);
    }
}

/// The same for one-time breaks, whose date must match as well.
pub proof fn law_one_time_break_removed_by_exact_span(
    v: AccountView,
    b: Break,
    start: i64,
    end: i64,
    date: Option<u64>,
)
    requires
        !b.is_regular,
    ensures
        spans(b, start, end) && b.date == date ==> !v.with_break(b).without_breaks(start, end, false, date).one_time_breaks.contains(b),
        !(spans(b, start, end) && b.date == date) ==> v.with_break(b).without_breaks(start, end, false, date).one_time_breaks
            == v.without_breaks(start, end, false, date).one_time_breaks.push(b),
{
    let keep = keeps_one_time(start, end, date);
    v.one_time_breaks.lemma_filter_push(b, keep);
    if spans(b, start, end) && b.date == date {
        let f = v.one_time_breaks.push(b).filter(keep);
        v.one_time_breaks.push(b).filter_lemma(keep);
        if f.contains(b) {
            let i = choose|i: int| 0 <= i < f.len() && f[i] == b;
            assert(keep(f[i]));
        }
    }
}

/// The template for an account without stored hours is nine to four on each
/// of the seven days.
pub proof fn law_default_working_hours()
    ensures
        WeeklyWorkingHours::standard_spec().days().len() == 7,
        forall|i: int|
            0 <= i < 7 ==> WeeklyWorkingHours::standard_spec().days()[i] == (WorkingHours {
                start_time: DEFAULT_DAY_START,
                end_time: DEFAULT_DAY_END,
            }),
        DEFAULT_DAY_START == 9 * 60 && DEFAULT_DAY_END == 16 * 60,
{
}

/// Storing a well-formed ledger as its records and reading them back is
/// exact: the records are accepted, and every account holds what it held.
pub proof fn law_records_round_trip(l: TodoListV1, restored: TodoListV1)
    requires
        l.wf(),
        restored.records() == l.records(),
    ensures
        records_valid(l.records()),
        restored.wf(),
        forall|a: Seq<char>| restored.account(a) == l.account(a),
{
    l.lemma_records(&restored);
    restored.lemma_records(&l);
}

} // verus!

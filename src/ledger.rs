//! The ledger: every account's tasks, rewards, points, schedules and breaks.
use vstd::prelude::*;
use crate::account::{
    bump_day, count_on, days_distinct, first_break, first_reward, first_task, keeps_one_time, keeps_regular,
    keeps_reward, keeps_task, lemma_day_at, lemma_first_break_unique, lemma_first_reward_unique,
    lemma_first_task_unique, spans, AccountView,
};
use crate::day::{day_index, day_of, decimal, decimal_string};
use crate::types::{copy_all, AccountBreaks, AccountIdWrapper, Break, Reward, Task, TimeSlots, WeeklyWorkingHours};

verus! {

/// What the ledger holds for one account, in the form it is stored in.
pub struct AccountRecord {
    pub account: AccountIdWrapper,
    pub tasks: Vec<Task>,
    pub rewards: Vec<Reward>,
    pub points: i64,
    /// Pairs of a day index and the number of completions recorded on it.
    pub completions: Vec<(u64, u32)>,
    pub working_hours: Option<WeeklyWorkingHours>,
    pub time_slots: Option<TimeSlots>,
    pub breaks: AccountBreaks,
}

impl AccountRecord {
    pub open spec fn view(&self) -> AccountView {
        AccountView {
            tasks: self.tasks@,
            rewards: self.rewards@,
            points: self.points,
            completions: self.completions@,
            working_hours: self.working_hours,
            time_slots: match self.time_slots {
                Some(t) => Some(t@),
                None => None,
            },
            regular_breaks: self.breaks.regular_breaks@,
            one_time_breaks: self.breaks.one_time_breaks@,
        }
    }

    fn fresh(account: AccountIdWrapper) -> (r: AccountRecord)
        ensures
            r.account == account,
            r@ == AccountView::empty(),
    {
        AccountRecord {
            account,
            tasks: Vec::new(),
            rewards: Vec::new(),
            points: 0,
            completions: Vec::new(),
            working_hours: None,
            time_slots: None,
            breaks: AccountBreaks::empty(),
        }
    }
}

/// Accounts hold distinct identifiers.
pub open spec fn keys_distinct(recs: Seq<AccountRecord>) -> bool {
    forall|i: int, k: int|
        0 <= i < recs.len() && 0 <= k < recs.len() && i != k ==> recs[i].account@ != recs[k].account@
}

/// Records that a ledger can hold: distinct accounts, each well formed.
pub open spec fn records_valid(recs: Seq<AccountRecord>) -> bool {
    &&& keys_distinct(recs)
    &&& forall|i: int| 0 <= i < recs.len() ==> (#[trigger] recs[i])@.wf()
}

/// The contents of account `a`: those of its record, or nothing.
spec fn lookup(recs: Seq<AccountRecord>, a: Seq<char>) -> AccountView
    decreases recs.len(),
{
    if recs.len() == 0 {
        AccountView::empty()
    } else if recs.last().account@ == a {
        recs.last()@
    } else {
        lookup(recs.drop_last(), a)
    }
}

proof fn lemma_lookup_at(recs: Seq<AccountRecord>, j: int, a: Seq<char>)
    requires
        keys_distinct(recs),
        0 <= j < recs.len(),
        recs[j].account@ == a,
    ensures
        lookup(recs, a) == recs[j]@,
    decreases recs.len(),
{
    if j != recs.len() - 1 {
        assert(recs.last().account@ != a);
        let d = recs.drop_last();
        assert(d[j] == recs[j]);
        lemma_lookup_at(d, j, a);
    }
}

proof fn lemma_lookup_absent(recs: Seq<AccountRecord>, a: Seq<char>)
    requires
        forall|i: int| 0 <= i < recs.len() ==> recs[i].account@ != a,
    ensures
        lookup(recs, a) == AccountView::empty(),
    decreases recs.len(),
{
    if recs.len() > 0 {
        let d = recs.drop_last();
        assert forall|i: int| 0 <= i < d.len() implies d[i].account@ != a by {
            assert(d[i] == recs[i]);
        }
        lemma_lookup_absent(d, a);
    }
}

/// Replacing a record by one of the same account changes that account alone.
proof fn lemma_replace(recs: Seq<AccountRecord>, j: int, r: AccountRecord)
    requires
        keys_distinct(recs),
        0 <= j < recs.len(),
        r.account@ == recs[j].account@,
    ensures
        keys_distinct(recs.update(j, r)),
        lookup(recs.update(j, r), r.account@) == r@,
        forall|b: Seq<char>| b != r.account@ ==> lookup(recs.update(j, r), b) == lookup(recs, b),
{
    let n = recs.update(j, r);
    assert(keys_distinct(n));
    lemma_lookup_at(n, j, r.account@);
    assert forall|b: Seq<char>| b != r.account@ implies lookup(n, b) == lookup(recs, b) by {
        if exists|i: int| 0 <= i < recs.len() && recs[i].account@ == b {
            let i = choose|i: int| 0 <= i < recs.len() && recs[i].account@ == b;
            lemma_lookup_at(recs, i, b);
            lemma_lookup_at(n, i, b);
        } else {
            lemma_lookup_absent(recs, b);
            lemma_lookup_absent(n, b);
        }
    }
}

fn find_task(s: &Vec<Task>, id: u64) -> (r: Option<usize>)
    ensures
        match r {
            Some(j) => first_task(s@, id, j as int),
            None => forall|k: int| 0 <= k < s@.len() ==> s@[k].id != id,
        },
{
    let mut i: usize = 0;
    while i < s.len()
        invariant
            i <= s@.len(),
            forall|k: int| 0 <= k < i ==> s@[k].id != id,
        decreases s@.len() - i,
    {
        if s[i].id == id {
            return Some(i);
        }
        i = i + 1;
    }
    None
}

fn find_reward(s: &Vec<Reward>, id: u64) -> (r: Option<usize>)
    ensures
        match r {
            Some(j) => first_reward(s@, id, j as int),
            None => forall|k: int| 0 <= k < s@.len() ==> s@[k].id != id,
        },
{
    let mut i: usize = 0;
    while i < s.len()
        invariant
            i <= s@.len(),
            forall|k: int| 0 <= k < i ==> s@[k].id != id,
        decreases s@.len() - i,
    {
        if s[i].id == id {
            return Some(i);
        }
        i = i + 1;
    }
    None
}

fn find_break(s: &Vec<Break>, start: i64, end: i64) -> (r: Option<usize>)
    ensures
        match r {
            Some(j) => first_break(s@, start, end, j as int),
            None => forall|k: int| 0 <= k < s@.len() ==> !spans(s@[k], start, end),
        },
{
    let mut i: usize = 0;
    while i < s.len()
        invariant
            i <= s@.len(),
            forall|k: int| 0 <= k < i ==> !spans(s@[k], start, end),
        decreases s@.len() - i,
    {
        if s[i].start_time == start && s[i].end_time == end {
            return Some(i);
        }
        i = i + 1;
    }
    None
}

fn copy_tasks(s: &Vec<Task>) -> (r: Vec<Task>)
    ensures
        r@ == s@,
{
    let mut r: Vec<Task> = Vec::new();
    let mut i: usize = 0;
    while i < s.len()
        invariant
            i <= s@.len(),
            r@ == s@.subrange(0, i as int),
        decreases s@.len() - i,
    {
        r.push(s[i].duplicate());
        i = i + 1;
    }
    assert(r@ =~= s@);
    r
}

fn copy_rewards(s: &Vec<Reward>) -> (r: Vec<Reward>)
    ensures
        r@ == s@,
{
    let mut r: Vec<Reward> = Vec::new();
    let mut i: usize = 0;
    while i < s.len()
        invariant
            i <= s@.len(),
            r@ == s@.subrange(0, i as int),
        decreases s@.len() - i,
    {
        r.push(s[i].duplicate());
        i = i + 1;
    }
    assert(r@ =~= s@);
    r
}

/// The tasks whose id differs from `id`, in their order.
fn tasks_without(s: &Vec<Task>, id: u64) -> (r: Vec<Task>)
    ensures
        r@ == s@.filter(keeps_task(id)),
{
    let mut r: Vec<Task> = Vec::new();
    let ghost all = s@;
    let mut i: usize = 0;
    while i < s.len()
        invariant
            s@ == all,
            i <= all.len(),
            r@ == all.subrange(0, i as int).filter(keeps_task(id)),
        decreases all.len() - i,
    {
        proof {
            assert(all.subrange(0, i + 1) =~= all.subrange(0, i as int).push(all[i as int]));
            all.subrange(0, i as int).lemma_filter_push(all[i as int], keeps_task(id));
        }
        if s[i].id != id {
            r.push(s[i].duplicate());
        }
        i = i + 1;
    }
    assert(all.subrange(0, all.len() as int) =~= all);
    r
}

/// The rewards whose id differs from `id`, in their order.
fn rewards_without(s: &Vec<Reward>, id: u64) -> (r: Vec<Reward>)
    ensures
        r@ == s@.filter(keeps_reward(id)),
{
    let mut r: Vec<Reward> = Vec::new();
    let ghost all = s@;
    let mut i: usize = 0;
    while i < s.len()
        invariant
            s@ == all,
            i <= all.len(),
            r@ == all.subrange(0, i as int).filter(keeps_reward(id)),
        decreases all.len() - i,
    {
        proof {
            assert(all.subrange(0, i + 1) =~= all.subrange(0, i as int).push(all[i as int]));
            all.subrange(0, i as int).lemma_filter_push(all[i as int], keeps_reward(id));
        }
        if s[i].id != id {
            r.push(s[i].duplicate());
        }
        i = i + 1;
    }
    assert(all.subrange(0, all.len() as int) =~= all);
    r
}

/// The breaks that do not match, in their order: those of another span, and for
/// one-time breaks also those of another date.
fn breaks_without(s: &Vec<Break>, start: i64, end: i64, is_regular: bool, date: Option<u64>) -> (r: Vec<Break>)
    ensures
        r@ == s@.filter(if is_regular { keeps_regular(start, end) } else { keeps_one_time(start, end, date) }),
{
    let ghost keep = if is_regular { keeps_regular(start, end) } else { keeps_one_time(start, end, date) };
    let mut r: Vec<Break> = Vec::new();
    let mut i: usize = 0;
    while i < s.len()
        invariant
            keep == (if is_regular { keeps_regular(start, end) } else { keeps_one_time(start, end, date) }),
            i <= s@.len(),
            r@ == s@.subrange(0, i as int).filter(keep),
        decreases s@.len() - i,
    {
        proof {
            assert(s@.subrange(0, i + 1) =~= s@.subrange(0, i as int).push(s@[i as int]));
            s@.subrange(0, i as int).lemma_filter_push(s@[i as int], keep);
        }
        let b = s[i];
        let matches = b.start_time == start && b.end_time == end && (is_regular || b.date == date);
        proof {
            if is_regular {
                assert(keep(b) == !spans(b, start, end));
            } else {
                assert(keep(b) == !(spans(b, start, end) && b.date == date));
            }
        }
        if !matches {
            r.push(b);
        }
        i = i + 1;
    }
    assert(s@.subrange(0, s@.len() as int) =~= s@);
    r
}

/// Whether no day is counted twice.
fn days_are_distinct(v: &Vec<(u64, u32)>) -> (r: bool)
    ensures
        r == days_distinct(v@),
{
    let mut i: usize = 0;
    while i < v.len()
        invariant
            i <= v@.len(),
            forall|p: int, q: int| 0 <= p < i && 0 <= q < i && p != q ==> v@[p].0 != v@[q].0,
        decreases v@.len() - i,
    {
        let mut k: usize = 0;
        while k < i
            invariant
                i < v@.len(),
                k <= i,
                forall|p: int| 0 <= p < k ==> v@[p].0 != v@[i as int].0,
            decreases i - k,
        {
            if v[k].0 == v[i].0 {
                return false;
            }
            k = k + 1;
        }
        i = i + 1;
    }
    true
}

/// The completions counted on `day`.
fn day_count(v: &Vec<(u64, u32)>, day: u64) -> (r: u32)
    requires
        days_distinct(v@),
    ensures
        r == count_on(v@, day),
{
    let mut i: usize = 0;
    while i < v.len()
        invariant
            days_distinct(v@),
            i <= v@.len(),
            forall|k: int| 0 <= k < i ==> v@[k].0 != day,
        decreases v@.len() - i,
    {
        if v[i].0 == day {
            proof {
                lemma_day_at(v@, day, i as int);
            }
            return v[i].1;
        }
        i = i + 1;
    }
    0
}

/// One more completion on `day`.
fn bump(v: &mut Vec<(u64, u32)>, day: u64)
    requires
        days_distinct(old(v)@),
        count_on(old(v)@, day) < u32::MAX,
    ensures
        final(v)@ == bump_day(old(v)@, day),
        days_distinct(final(v)@),
{
    let mut i: usize = 0;
    while i < v.len()
        invariant
            v@ == old(v)@,
            days_distinct(v@),
            count_on(v@, day) < u32::MAX,
            i <= v@.len(),
            forall|k: int| 0 <= k < i ==> v@[k].0 != day,
        decreases v@.len() - i,
    {
        if v[i].0 == day {
            let c = v[i].1;
            proof {
                lemma_day_at(v@, day, i as int);
            }
            v.set(i, (day, c + 1));
            return;
        }
        i = i + 1;
    }
    v.push((day, 1));
}

/// Every account's tasks, rewards, point balance, daily completion counts,
/// working hours, time slots and breaks.
pub struct TodoListV1 {
    accounts: Vec<AccountRecord>,
}

/// `after` differs from `before` in account `a` alone, which now holds `v`.
pub open spec fn changes_only(before: TodoListV1, after: TodoListV1, a: Seq<char>, v: AccountView) -> bool {
    &&& after.wf()
    &&& after.account(a) == v
    &&& forall|b: Seq<char>| b != a ==> after.account(b) == before.account(b)
}

impl TodoListV1 {
    /// Identifiers are distinct and each account's contents are well formed.
    pub closed spec fn wf(&self) -> bool {
        &&& keys_distinct(self.accounts@)
        &&& forall|i: int| 0 <= i < self.accounts@.len() ==> (#[trigger] self.accounts@[i])@.wf()
    }

    /// What account `a` holds; an account never written to holds nothing.
    pub closed spec fn account(&self, a: Seq<char>) -> AccountView {
        lookup(self.accounts@, a)
    }

    pub proof fn lemma_account_wf(&self, a: Seq<char>)
        requires
            self.wf(),
        ensures
            self.account(a).wf(),
    {
        if exists|i: int| 0 <= i < self.accounts@.len() && self.accounts@[i].account@ == a {
            let i = choose|i: int| 0 <= i < self.accounts@.len() && self.accounts@[i].account@ == a;
            lemma_lookup_at(self.accounts@, i, a);
        } else {
            lemma_lookup_absent(self.accounts@, a);
        }
    }

    /// The records of the accounts, in the order they were first written to.
    pub closed spec fn records(&self) -> Seq<AccountRecord> {
        self.accounts@
    }

    /// A ledger is well formed exactly when its records are valid, and its
    /// records decide what every account holds.
    pub proof fn lemma_records(&self, other: &TodoListV1)
        ensures
            self.wf() <==> records_valid(self.records()),
            self.records() == other.records() ==> forall|a: Seq<char>| self.account(a) == other.account(a),
    {
    }

    /// The records that hold the whole ledger, for storing it.
    pub fn into_records(self) -> (r: Vec<AccountRecord>)
        ensures
            r@ == self.records(),
    {
        self.accounts
    }

    /// A ledger holding the given records, where they are valid.
    pub fn from_records(records: Vec<AccountRecord>) -> (r: Option<TodoListV1>)
        ensures
            r is Some <==> records_valid(records@),
            r matches Some(l) ==> l.records() == records@,
    {
        let mut i: usize = 0;
        while i < records.len()
            invariant
                i <= records@.len(),
                forall|k: int| 0 <= k < i ==> (#[trigger] records@[k])@.wf(),
                forall|p: int, q: int| 0 <= p < i && 0 <= q < i && p != q ==> records@[p].account@ != records@[q].account@,
            decreases records@.len() - i,
        {
            if records[i].points < 0 {
                assert(!records@[i as int]@.wf());
                return None;
            }
            if !days_are_distinct(&records[i].completions) {
                assert(!records@[i as int]@.wf());
                return None;
            }
            let mut k: usize = 0;
            while k < i
                invariant
                    i < records@.len(),
                    k <= i,
                    forall|p: int| 0 <= p < k ==> records@[p].account@ != records@[i as int].account@,
                decreases i - k,
            {
                if records[k].account.same_as(&records[i].account) {
                    assert(!keys_distinct(records@));
                    return None;
                }
                k = k + 1;
            }
            i = i + 1;
        }
        Some(TodoListV1 { accounts: records })
    }

    /// An empty ledger.
    pub fn new() -> (r: TodoListV1)
        ensures
            r.wf(),
            forall|a: Seq<char>| r.account(a) == AccountView::empty(),
    {
        let r = TodoListV1 { accounts: Vec::new() };
        assert forall|a: Seq<char>| r.account(a) == AccountView::empty() by {
            lemma_lookup_absent(r.accounts@, a);
        }
        r
    }

    fn position(&self, a: &AccountIdWrapper) -> (r: Option<usize>)
        ensures
            match r {
                Some(j) => j < self.accounts@.len() && self.accounts@[j as int].account@ == a@,
                None => forall|i: int| 0 <= i < self.accounts@.len() ==> self.accounts@[i].account@ != a@,
            },
    {
        let mut i: usize = 0;
        while i < self.accounts.len()
            invariant
                i <= self.accounts@.len(),
                forall|k: int| 0 <= k < i ==> self.accounts@[k].account@ != a@,
            decreases self.accounts@.len() - i,
        {
            if self.accounts[i].account.same_as(a) {
                return Some(i);
            }
            i = i + 1;
        }
        None
    }

    /// The position of the caller's record, which is created empty if missing.
    fn slot(&mut self, caller: &AccountIdWrapper) -> (j: usize)
        requires
            old(self).wf(),
        ensures
            final(self).wf(),
            j < final(self).accounts@.len(),
            final(self).accounts@[j as int].account@ == caller@,
            forall|a: Seq<char>| final(self).account(a) == old(self).account(a),
    {
        match self.position(caller) {
            Some(j) => j,
            None => {
                let ghost before = self.accounts@;
                let rec = AccountRecord::fresh(caller.duplicate());
                self.accounts.push(rec);
                let ghost after = self.accounts@;
                assert(after.drop_last() == before);
                assert(keys_distinct(after));
                assert forall|a: Seq<char>| lookup(after, a) == lookup(before, a) by {
                    if a == caller@ {
                        lemma_lookup_absent(before, a);
                    }
                }
                assert forall|i: int| 0 <= i < after.len() implies (#[trigger] after[i])@.wf() by {
                    if i < before.len() {
                        assert(after[i] == before[i]);
                    }
                }
                self.accounts.len() - 1
            }
        }
    }

    /// Takes the caller's record out, leaving an empty one of the same
    /// account in its place.
    fn take(&mut self, caller: &AccountIdWrapper) -> (r: (usize, AccountRecord))
        requires
            old(self).wf(),
        ensures
            r.0 < final(self).accounts@.len(),
            r.1.account@ == caller@,
            r.1@ == old(self).account(caller@),
            r.1@.wf(),
            keys_distinct(final(self).accounts@.update(r.0 as int, r.1)),
            forall|i: int|
                0 <= i < final(self).accounts@.len() && i != r.0 ==> (#[trigger] final(self).accounts@[i])@.wf(),
            forall|a: Seq<char>| lookup(final(self).accounts@.update(r.0 as int, r.1), a) == old(self).account(a),
    {
        let j = self.slot(caller);
        let ghost mid = self.accounts@;
        let mut rec = AccountRecord::fresh(caller.duplicate());
        self.accounts.set_and_swap(j, &mut rec);
        proof {
            assert(self.accounts@.update(j as int, rec) =~= mid);
            lemma_lookup_at(mid, j as int, caller@);
            assert(mid[j as int]@.wf());
        }
        (j, rec)
    }

    /// Puts a record taken out by `take` back, changed.
    fn put(&mut self, j: usize, rec: AccountRecord, Ghost(held): Ghost<AccountRecord>)
        requires
            j < old(self).accounts@.len(),
            held.account@ == rec.account@,
            keys_distinct(old(self).accounts@.update(j as int, held)),
            forall|i: int|
                0 <= i < old(self).accounts@.len() && i != j ==> (#[trigger] old(self).accounts@[i])@.wf(),
            rec@.wf(),
        ensures
            final(self).wf(),
            final(self).account(rec.account@) == rec@,
            forall|b: Seq<char>|
                b != rec.account@ ==> final(self).account(b) == lookup(old(self).accounts@.update(j as int, held), b),
    {
        let ghost taken = old(self).accounts@.update(j as int, held);
        let ghost account = rec.account@;
        let ghost view = rec@;
        let mut rec = rec;
        self.accounts.set_and_swap(j, &mut rec);
        proof {
            assert(self.accounts@ =~= taken.update(j as int, self.accounts@[j as int]));
            lemma_replace(taken, j as int, self.accounts@[j as int]);
            assert forall|i: int| 0 <= i < self.accounts@.len() implies (#[trigger] self.accounts@[i])@.wf() by {
                if i != j {
                    assert(self.accounts@[i] == old(self).accounts@[i]);
                }
            }
        }
    }
    /// Adds a task for the caller, with the id one more than the caller's
    /// number of tasks.
    pub fn add_task(
        &mut self,
        caller: &AccountIdWrapper,
        title: String,
        description: String,
        priority: u8,
        deadline: Option<u64>,
        estimated_time: Option<i64>,
        reward_points: i64,
        preferred_start_time: Option<i64>,
        preferred_end_time: Option<i64>,
    )
        requires
            old(self).wf(),
            old(self).account(caller@).tasks.len() < u64::MAX,
        ensures
            changes_only(
                *old(self),
                *final(self),
                caller@,
                old(self).account(caller@).with_new_task(
                    title,
                    description,
                    priority,
                    deadline,
                    estimated_time,
                    reward_points,
                    preferred_start_time,
                    preferred_end_time,
                    *caller,
                ),
            ),
            final(self).account(caller@).tasks.last().id == old(self).account(caller@).tasks.len() + 1,
            !final(self).account(caller@).tasks.last().completed,
    {
        let (j, mut rec) = self.take(caller);
        let ghost held = rec;
        let id = rec.tasks.len() as u64 + 1;
        rec.tasks.push(
            Task {
                id,
                title,
                description,
                priority,
                deadline,
                estimated_time,
                reward_points,
                completed: false,
                preferred_start_time,
                preferred_end_time,
                owner: caller.duplicate(),
            },
        );
        self.put(j, rec, Ghost(held));
    }

    /// Removes every task of the caller with this id.
    pub fn remove_task(&mut self, caller: &AccountIdWrapper, id: u64)
        requires
            old(self).wf(),
        ensures
            changes_only(*old(self), *final(self), caller@, old(self).account(caller@).without_task(id)),
    {
        let (j, mut rec) = self.take(caller);
        let ghost held = rec;
        rec.tasks = tasks_without(&rec.tasks, id);
        self.put(j, rec, Ghost(held));
    }

    /// The tasks of any account; none for an account never written to.
    pub fn get_tasks(&self, account_id: &AccountIdWrapper) -> (r: Vec<Task>)
        requires
            self.wf(),
        ensures
            r@ == self.account(account_id@).tasks,
    {
        match self.position(account_id) {
            Some(j) => {
                proof {
                    lemma_lookup_at(self.accounts@, j as int, account_id@);
                }
                copy_tasks(&self.accounts[j].tasks)
            },
            None => {
                proof {
                    lemma_lookup_absent(self.accounts@, account_id@);
                }
                Vec::new()
            },
        }
    }

    /// Gives the caller's first task with this id the new details; its id,
    /// completion and owner stay. Nothing changes where no task has the id.
    pub fn update_task(
        &mut self,
        caller: &AccountIdWrapper,
        id: u64,
        title: String,
        description: String,
        priority: u8,
        deadline: Option<u64>,
        estimated_time: Option<i64>,
        reward_points: i64,
        preferred_start_time: Option<i64>,
        preferred_end_time: Option<i64>,
    )
        requires
            old(self).wf(),
        ensures
            changes_only(
                *old(self),
                *final(self),
                caller@,
                old(self).account(caller@).with_task_details(
                    id,
                    title,
                    description,
                    priority,
                    deadline,
                    estimated_time,
                    reward_points,
                    preferred_start_time,
                    preferred_end_time,
                ),
            ),
    {
        let (j, mut rec) = self.take(caller);
        let ghost held = rec;
        match find_task(&rec.tasks, id) {
            Some(k) => {
                proof {
                    lemma_first_task_unique(rec.tasks@, id, k as int);
                }
                let t = Task {
                    id: rec.tasks[k].id,
                    title,
                    description,
                    priority,
                    deadline,
                    estimated_time,
                    reward_points,
                    completed: rec.tasks[k].completed,
                    preferred_start_time,
                    preferred_end_time,
                    owner: rec.tasks[k].owner.duplicate(),
                };
                rec.tasks.set(k, t);
            },
            None => {},
        }
        self.put(j, rec, Ghost(held));
    }

    /// Completes the caller's first task with this id: marks it done, credits
    /// its points (the balance never drops below zero) and counts one
    /// completion on the day of `timestamp` (nanoseconds). Nothing changes
    /// where no task has the id. Completing a task again counts it again.
    pub fn mark_complete(&mut self, caller: &AccountIdWrapper, id: u64, timestamp: u64)
        requires
            old(self).wf(),
            old(self).account(caller@).can_complete(id, day_of(timestamp)),
        ensures
            changes_only(*old(self), *final(self), caller@, old(self).account(caller@).completed(id, day_of(timestamp))),
            final(self).account(caller@).points >= 0,
    {
        let day = day_index(timestamp);
        let (j, mut rec) = self.take(caller);
        let ghost held = rec;
        match find_task(&rec.tasks, id) {
            Some(k) => {
                proof {
                    lemma_first_task_unique(rec.tasks@, id, k as int);
                }
                let mut t = rec.tasks[k].duplicate();
                t.completed = true;
                let reward = t.reward_points;
                rec.tasks.set(k, t);
                let sum = rec.points + reward;
                rec.points = if sum < 0 { 0 } else { sum };
                bump(&mut rec.completions, day);
            },
            None => {},
        }
        self.put(j, rec, Ghost(held));
    }
    /// Whether `mark_complete` may be called with these arguments: completing
    /// the task overflows neither the balance nor the day's count.
    pub fn can_mark_complete(&self, caller: &AccountIdWrapper, id: u64, timestamp: u64) -> (r: bool)
        requires
            self.wf(),
        ensures
            r == self.account(caller@).can_complete(id, day_of(timestamp)),
    {
        let day = day_index(timestamp);
        match self.position(caller) {
            Some(j) => {
                proof {
                    lemma_lookup_at(self.accounts@, j as int, caller@);
                }
                let rec = &self.accounts[j];
                match find_task(&rec.tasks, id) {
                    Some(k) => {
                        proof {
                            lemma_first_task_unique(rec.tasks@, id, k as int);
                        }
                        let fits_points = rec.points as i128 + rec.tasks[k].reward_points as i128 <= i64::MAX as i128;
                        fits_points && day_count(&rec.completions, day) < u32::MAX
                    },
                    None => true,
                }
            },
            None => {
                proof {
                    lemma_lookup_absent(self.accounts@, caller@);
                }
                true
            },
        }
    }

    /// Adds a reward for the caller, with the id one more than the caller's
    /// number of rewards.
    pub fn add_reward(&mut self, caller: &AccountIdWrapper, title: String, description: String, cost: i64)
        requires
            old(self).wf(),
            old(self).account(caller@).rewards.len() < u64::MAX,
        ensures
            changes_only(
                *old(self),
                *final(self),
                caller@,
                old(self).account(caller@).with_new_reward(title, description, cost),
            ),
            final(self).account(caller@).rewards.last().id == old(self).account(caller@).rewards.len() + 1,
    {
        let (j, mut rec) = self.take(caller);
        let ghost held = rec;
        let id = rec.rewards.len() as u64 + 1;
        rec.rewards.push(Reward { id, title, description, cost });
        self.put(j, rec, Ghost(held));
    }

    /// The rewards of any account; none for an account never written to.
    pub fn get_rewards(&self, account_id: &AccountIdWrapper) -> (r: Vec<Reward>)
        requires
            self.wf(),
        ensures
            r@ == self.account(account_id@).rewards,
    {
        match self.position(account_id) {
            Some(j) => {
                proof {
                    lemma_lookup_at(self.accounts@, j as int, account_id@);
                }
                copy_rewards(&self.accounts[j].rewards)
            },
            None => {
                proof {
                    lemma_lookup_absent(self.accounts@, account_id@);
                }
                Vec::new()
            },
        }
    }

    /// Removes every reward of the caller with this id.
    pub fn remove_reward(&mut self, caller: &AccountIdWrapper, id: u64)
        requires
            old(self).wf(),
        ensures
            changes_only(*old(self), *final(self), caller@, old(self).account(caller@).without_reward(id)),
    {
        let (j, mut rec) = self.take(caller);
        let ghost held = rec;
        rec.rewards = rewards_without(&rec.rewards, id);
        self.put(j, rec, Ghost(held));
    }

    /// Whether `redeem_reward` may be called with these arguments: taking the
    /// cost does not overflow the balance.
    pub fn can_redeem_reward(&self, caller: &AccountIdWrapper, id: u64) -> (r: bool)
        requires
            self.wf(),
        ensures
            r == self.account(caller@).redeem_fits(id),
    {
        match self.position(caller) {
            Some(j) => {
                proof {
                    lemma_lookup_at(self.accounts@, j as int, caller@);
                }
                let rec = &self.accounts[j];
                match find_reward(&rec.rewards, id) {
                    Some(k) => {
                        proof {
                            lemma_first_reward_unique(rec.rewards@, id, k as int);
                            assert(self.account(caller@) == rec@);
                            assert(self.account(caller@).reward_index(id) == k);
                            assert(self.account(caller@).has_reward(id));
                        }
                        let cost = rec.rewards[k].cost;
                        if rec.points >= cost {
                            rec.points as i128 - cost as i128 <= i64::MAX as i128
                        } else {
                            true
                        }
                    },
                    None => true,
                }
            },
            None => {
                proof {
                    lemma_lookup_absent(self.accounts@, caller@);
                }
                true
            },
        }
    }

    /// Redeems the caller's first reward with this id: where the balance
    /// covers its cost, the cost is taken and the result is true; otherwise
    /// (no such reward, or too few points) nothing changes and it is false.
    pub fn redeem_reward(&mut self, caller: &AccountIdWrapper, id: u64) -> (r: bool)
        requires
            old(self).wf(),
            old(self).account(caller@).redeem_fits(id),
        ensures
            r == old(self).account(caller@).can_redeem(id),
            changes_only(*old(self), *final(self), caller@, old(self).account(caller@).redeemed(id)),
    {
        let (j, mut rec) = self.take(caller);
        let ghost held = rec;
        let mut done = false;
        match find_reward(&rec.rewards, id) {
            Some(k) => {
                proof {
                    lemma_first_reward_unique(rec.rewards@, id, k as int);
                }
                let cost = rec.rewards[k].cost;
                if rec.points >= cost {
                    rec.points = rec.points - cost;
                    done = true;
                }
            },
            None => {},
        }
        self.put(j, rec, Ghost(held));
        done
    }

    /// The point balance of any account; zero for one never credited.
    pub fn get_account_reward_points(&self, account_id: &AccountIdWrapper) -> (r: i64)
        requires
            self.wf(),
        ensures
            r == self.account(account_id@).points,
    {
        match self.position(account_id) {
            Some(j) => {
                proof {
                    lemma_lookup_at(self.accounts@, j as int, account_id@);
                }
                self.accounts[j].points
            },
            None => {
                proof {
                    lemma_lookup_absent(self.accounts@, account_id@);
                }
                0
            },
        }
    }

    /// The completion counts of any account, each keyed by the decimal
    /// notation of its day index, in the order the days were first counted.
    pub fn get_completed_tasks_per_day(&self, account_id: &AccountIdWrapper) -> (r: Vec<(String, u32)>)
        requires
            self.wf(),
        ensures
            r@.len() == self.account(account_id@).completions.len(),
            forall|i: int|
                0 <= i < r@.len() ==> r@[i].0@ == decimal(self.account(account_id@).completions[i].0 as nat)
                    && r@[i].1 == self.account(account_id@).completions[i].1,
    {
        match self.position(account_id) {
            Some(j) => {
                proof {
                    lemma_lookup_at(self.accounts@, j as int, account_id@);
                }
                let c = &self.accounts[j].completions;
                let mut r: Vec<(String, u32)> = Vec::new();
                let mut i: usize = 0;
                while i < c.len()
                    invariant
                        i <= c@.len(),
                        r@.len() == i,
                        forall|k: int| 0 <= k < i ==> r@[k].0@ == decimal(c@[k].0 as nat) && r@[k].1 == c@[k].1,
                    decreases c@.len() - i,
                {
                    r.push((decimal_string(c[i].0), c[i].1));
                    i = i + 1;
                }
                r
            },
            None => {
                proof {
                    lemma_lookup_absent(self.accounts@, account_id@);
                }
                Vec::new()
            },
        }
    }

    /// The working hours of any account; nine to four every day for one that
    /// stored none.
    pub fn get_working_hours(&self, account_id: &AccountIdWrapper) -> (r: WeeklyWorkingHours)
        requires
            self.wf(),
        ensures
            r == match self.account(account_id@).working_hours {
                Some(h) => h,
                None => WeeklyWorkingHours::standard_spec(),
            },
    {
        match self.position(account_id) {
            Some(j) => {
                proof {
                    lemma_lookup_at(self.accounts@, j as int, account_id@);
                }
                match self.accounts[j].working_hours {
                    Some(h) => h,
                    None => WeeklyWorkingHours::standard(),
                }
            },
            None => {
                proof {
                    lemma_lookup_absent(self.accounts@, account_id@);
                }
                WeeklyWorkingHours::standard()
            },
        }
    }

    /// Replaces the caller's working hours, all seven days at once.
    pub fn update_working_hours(&mut self, caller: &AccountIdWrapper, working_hours: WeeklyWorkingHours)
        requires
            old(self).wf(),
        ensures
            changes_only(
                *old(self),
                *final(self),
                caller@,
                AccountView { working_hours: Some(working_hours), ..old(self).account(caller@) },
            ),
    {
        let (j, mut rec) = self.take(caller);
        let ghost held = rec;
        rec.working_hours = Some(working_hours);
        self.put(j, rec, Ghost(held));
    }

    /// The time slots of any account, or `None` for one that stored none.
    pub fn get_time_slots(&self, account_id: &AccountIdWrapper) -> (r: Option<TimeSlots>)
        requires
            self.wf(),
        ensures
            match r {
                Some(t) => self.account(account_id@).time_slots == Some(t@),
                None => self.account(account_id@).time_slots is None,
            },
    {
        match self.position(account_id) {
            Some(j) => {
                proof {
                    lemma_lookup_at(self.accounts@, j as int, account_id@);
                }
                match &self.accounts[j].time_slots {
                    Some(t) => Some(t.duplicate()),
                    None => None,
                }
            },
            None => {
                proof {
                    lemma_lookup_absent(self.accounts@, account_id@);
                }
                None
            },
        }
    }

    /// Replaces the caller's time slots, all seven days at once.
    pub fn update_time_slots(&mut self, caller: &AccountIdWrapper, time_slots: TimeSlots)
        requires
            old(self).wf(),
        ensures
            changes_only(
                *old(self),
                *final(self),
                caller@,
                AccountView { time_slots: Some(time_slots@), ..old(self).account(caller@) },
            ),
    {
        let (j, mut rec) = self.take(caller);
        let ghost held = rec;
        rec.time_slots = Some(time_slots);
        self.put(j, rec, Ghost(held));
    }
    /// Adds a break to the caller's weekly list or one-time list, by the flag.
    /// A weekly break keeps no date.
    pub fn add_break(&mut self, caller: &AccountIdWrapper, start_time: i64, end_time: i64, is_regular: bool, date: Option<u64>)
        requires
            old(self).wf(),
        ensures
            changes_only(
                *old(self),
                *final(self),
                caller@,
                old(self).account(caller@).with_break(
                    Break { start_time, end_time, is_regular, date: if is_regular { None } else { date } },
                ),
            ),
    {
        let (j, mut rec) = self.take(caller);
        let ghost held = rec;
        if is_regular {
            rec.breaks.regular_breaks.push(Break { start_time, end_time, is_regular, date: None });
        } else {
            rec.breaks.one_time_breaks.push(Break { start_time, end_time, is_regular, date });
        }
        self.put(j, rec, Ghost(held));
    }

    /// The breaks of any account; none for an account never written to.
    pub fn get_breaks(&self, account_id: &AccountIdWrapper) -> (r: AccountBreaks)
        requires
            self.wf(),
        ensures
            r.regular_breaks@ == self.account(account_id@).regular_breaks,
            r.one_time_breaks@ == self.account(account_id@).one_time_breaks,
    {
        match self.position(account_id) {
            Some(j) => {
                proof {
                    lemma_lookup_at(self.accounts@, j as int, account_id@);
                }
                let b = &self.accounts[j].breaks;
                AccountBreaks {
                    regular_breaks: copy_all(&b.regular_breaks),
                    one_time_breaks: copy_all(&b.one_time_breaks),
                }
            },
            None => {
                proof {
                    lemma_lookup_absent(self.accounts@, account_id@);
                }
                AccountBreaks::empty()
            },
        }
    }

    /// Removes the caller's weekly breaks of exactly this span, or one-time
    /// breaks of exactly this span and date.
    pub fn remove_break(&mut self, caller: &AccountIdWrapper, start_time: i64, end_time: i64, is_regular: bool, date: Option<u64>)
        requires
            old(self).wf(),
        ensures
            changes_only(
                *old(self),
                *final(self),
                caller@,
                old(self).account(caller@).without_breaks(start_time, end_time, is_regular, date),
            ),
    {
        let (j, mut rec) = self.take(caller);
        let ghost held = rec;
        if is_regular {
            rec.breaks.regular_breaks = breaks_without(&rec.breaks.regular_breaks, start_time, end_time, true, date);
        } else {
            rec.breaks.one_time_breaks = breaks_without(&rec.breaks.one_time_breaks, start_time, end_time, false, date);
        }
        self.put(j, rec, Ghost(held));
    }

    /// Moves the caller's first break of exactly the old span, in the selected
    /// list, to the new span; a one-time break also gets the new date. Other
    /// breaks of that span stay.
    pub fn update_break(
        &mut self,
        caller: &AccountIdWrapper,
        old_start_time: i64,
        old_end_time: i64,
        new_start_time: i64,
        new_end_time: i64,
        is_regular: bool,
        new_date: Option<u64>,
    )
        requires
            old(self).wf(),
        ensures
            changes_only(
                *old(self),
                *final(self),
                caller@,
                old(self).account(caller@).with_break_moved(
                    old_start_time,
                    old_end_time,
                    new_start_time,
                    new_end_time,
                    is_regular,
                    new_date,
                ),
            ),
    {
        let (j, mut rec) = self.take(caller);
        let ghost held = rec;
        if is_regular {
            match find_break(&rec.breaks.regular_breaks, old_start_time, old_end_time) {
                Some(k) => {
                    proof {
                        lemma_first_break_unique(rec.breaks.regular_breaks@, old_start_time, old_end_time, k as int);
                    }
                    let mut b = rec.breaks.regular_breaks[k];
                    b.start_time = new_start_time;
                    b.end_time = new_end_time;
                    rec.breaks.regular_breaks.set(k, b);
                },
                None => {},
            }
        } else {
            match find_break(&rec.breaks.one_time_breaks, old_start_time, old_end_time) {
                Some(k) => {
                    proof {
                        lemma_first_break_unique(rec.breaks.one_time_breaks@, old_start_time, old_end_time, k as int);
                    }
                    let mut b = rec.breaks.one_time_breaks[k];
                    b.start_time = new_start_time;
                    b.end_time = new_end_time;
                    b.date = new_date;
                    rec.breaks.one_time_breaks.set(k, b);
                },
                None => {},
            }
        }
        self.put(j, rec, Ghost(held));
    }
}

} // verus!

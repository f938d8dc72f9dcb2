//! What one account holds, as values, and what each operation makes of it.
use vstd::prelude::*;
use crate::types::{AccountIdWrapper, Break, Reward, Task, TimeSlot, WeeklyWorkingHours};

verus! {

/// The contents of one account.
pub struct AccountView {
    pub tasks: Seq<Task>,
    pub rewards: Seq<Reward>,
    pub points: i64,
    /// Pairs of a day index and the number of completions recorded on it.
    pub completions: Seq<(u64, u32)>,
    pub working_hours: Option<WeeklyWorkingHours>,
    pub time_slots: Option<Seq<Seq<TimeSlot>>>,
    pub regular_breaks: Seq<Break>,
    pub one_time_breaks: Seq<Break>,
}

/// `j` is the first position of a task with this id.
pub open spec fn first_task(s: Seq<Task>, id: u64, j: int) -> bool {
    0 <= j < s.len() && s[j].id == id && forall|k: int| 0 <= k < j ==> s[k].id != id
}

/// `j` is the first position of a reward with this id.
pub open spec fn first_reward(s: Seq<Reward>, id: u64, j: int) -> bool {
    0 <= j < s.len() && s[j].id == id && forall|k: int| 0 <= k < j ==> s[k].id != id
}

/// The break spans exactly this start and end.
pub open spec fn spans(b: Break, start: i64, end: i64) -> bool {
    b.start_time == start && b.end_time == end
}

/// `j` is the first position of a break that spans exactly `start` to `end`.
pub open spec fn first_break(s: Seq<Break>, start: i64, end: i64, j: int) -> bool {
    0 <= j < s.len() && spans(s[j], start, end) && forall|k: int| 0 <= k < j ==> !spans(s[k], start, end)
}

/// Keeps the tasks whose id differs from `id`.
pub open spec fn keeps_task(id: u64) -> spec_fn(Task) -> bool {
    |t: Task| t.id != id
}

/// Keeps the rewards whose id differs from `id`.
pub open spec fn keeps_reward(id: u64) -> spec_fn(Reward) -> bool {
    |r: Reward| r.id != id
}

/// Keeps the weekly breaks of another span.
pub open spec fn keeps_regular(start: i64, end: i64) -> spec_fn(Break) -> bool {
    |b: Break| !spans(b, start, end)
}

/// Keeps the one-time breaks of another span or another date.
pub open spec fn keeps_one_time(start: i64, end: i64, date: Option<u64>) -> spec_fn(Break) -> bool {
    |b: Break| !(spans(b, start, end) && b.date == date)
}

/// A balance after a credit, floored at zero.
pub open spec fn credit(points: i64, amount: i64) -> i64 {
    if points + amount < 0 {
        0
    } else {
        (points + amount) as i64
    }
}

/// No two entries count the same day.
pub open spec fn days_distinct(s: Seq<(u64, u32)>) -> bool {
    forall|i: int, k: int| 0 <= i < s.len() && 0 <= k < s.len() && i != k ==> s[i].0 != s[k].0
}

/// The completions recorded on a day.
pub open spec fn count_on(s: Seq<(u64, u32)>, day: u64) -> nat {
    if exists|i: int| 0 <= i < s.len() && s[i].0 == day {
        s[choose|i: int| 0 <= i < s.len() && s[i].0 == day].1 as nat
    } else {
        0
    }
}

/// One more completion on a day: its entry is raised by one, or a new entry
/// with one is appended.
pub open spec fn bump_day(s: Seq<(u64, u32)>, day: u64) -> Seq<(u64, u32)> {
    if exists|i: int| 0 <= i < s.len() && s[i].0 == day {
        let i = choose|i: int| 0 <= i < s.len() && s[i].0 == day;
        s.update(i, (day, (s[i].1 + 1) as u32))
    } else {
        s.push((day, 1u32))
    }
}

impl AccountView {
    /// An account that holds nothing.
    pub open spec fn empty() -> AccountView {
        AccountView {
            tasks: Seq::empty(),
            rewards: Seq::empty(),
            points: 0,
            completions: Seq::empty(),
            working_hours: None,
            time_slots: None,
            regular_breaks: Seq::empty(),
            one_time_breaks: Seq::empty(),
        }
    }

    /// The balance is not negative and each day is counted once.
    pub open spec fn wf(self) -> bool {
        self.points >= 0 && days_distinct(self.completions)
    }

    /// The id that the next task gets: one more than the number of tasks.
    pub open spec fn next_task_id(self) -> nat {
        self.tasks.len() + 1
    }

    /// The id that the next reward gets: one more than the number of rewards.
    pub open spec fn next_reward_id(self) -> nat {
        self.rewards.len() + 1
    }

    /// A new task with the next id, not completed, owned by `owner`.
    pub open spec fn with_new_task(
        self,
        title: String,
        description: String,
        priority: u8,
        deadline: Option<u64>,
        estimated_time: Option<i64>,
        reward_points: i64,
        preferred_start_time: Option<i64>,
        preferred_end_time: Option<i64>,
        owner: AccountIdWrapper,
    ) -> AccountView {
        AccountView {
            tasks: self.tasks.push(
                Task {
                    id: self.next_task_id() as u64,
                    title,
                    description,
                    priority,
                    deadline,
                    estimated_time,
                    reward_points,
                    completed: false,
                    preferred_start_time,
                    preferred_end_time,
                    owner,
                },
            ),
            ..self
        }
    }

    /// A new reward with the next id.
    pub open spec fn with_new_reward(self, title: String, description: String, cost: i64) -> AccountView {
        AccountView {
            rewards: self.rewards.push(Reward { id: self.next_reward_id() as u64, title, description, cost }),
            ..self
        }
    }

    pub open spec fn has_task(self, id: u64) -> bool {
        exists|j: int| first_task(self.tasks, id, j)
    }

    pub open spec fn task_index(self, id: u64) -> int {
        choose|j: int| first_task(self.tasks, id, j)
    }

    pub open spec fn has_reward(self, id: u64) -> bool {
        exists|j: int| first_reward(self.rewards, id, j)
    }

    pub open spec fn reward_index(self, id: u64) -> int {
        choose|j: int| first_reward(self.rewards, id, j)
    }

    pub open spec fn without_task(self, id: u64) -> AccountView {
        AccountView { tasks: self.tasks.filter(keeps_task(id)), ..self }
    }

    /// The first task with this id gets the given details; its id, completion
    /// and owner stay.
    pub open spec fn with_task_details(
        self,
        id: u64,
        title: String,
        description: String,
        priority: u8,
        deadline: Option<u64>,
        estimated_time: Option<i64>,
        reward_points: i64,
        preferred_start_time: Option<i64>,
        preferred_end_time: Option<i64>,
    ) -> AccountView {
        if self.has_task(id) {
            let j = self.task_index(id);
            let t = self.tasks[j];
            AccountView {
                tasks: self.tasks.update(
                    j,
                    Task {
                        id: t.id,
                        title,
                        description,
                        priority,
                        deadline,
                        estimated_time,
                        reward_points,
                        completed: t.completed,
                        preferred_start_time,
                        preferred_end_time,
                        owner: t.owner,
                    },
                ),
                ..self
            }
        } else {
            self
        }
    }

    /// Completing the first task with this id: it is marked done, its points
    /// are credited and one completion is counted on the day. Nothing happens
    /// where no task has the id.
    pub open spec fn completed(self, id: u64, day: u64) -> AccountView {
        if self.has_task(id) {
            let j = self.task_index(id);
            AccountView {
                tasks: self.tasks.update(j, Task { completed: true, ..self.tasks[j] }),
                points: credit(self.points, self.tasks[j].reward_points),
                completions: bump_day(self.completions, day),
                ..self
            }
        } else {
            self
        }
    }

    /// Completing the task does not overflow the balance or the day's count.
    pub open spec fn can_complete(self, id: u64, day: u64) -> bool {
        self.has_task(id) ==> self.points + self.tasks[self.task_index(id)].reward_points <= i64::MAX
            && count_on(self.completions, day) < u32::MAX
    }

    pub open spec fn without_reward(self, id: u64) -> AccountView {
        AccountView { rewards: self.rewards.filter(keeps_reward(id)), ..self }
    }

    /// The reward exists and the balance covers its cost.
    pub open spec fn can_redeem(self, id: u64) -> bool {
        self.has_reward(id) && self.points >= self.rewards[self.reward_index(id)].cost
    }

    /// Redeeming a reward does not overflow the balance (a negative cost adds).
    pub open spec fn redeem_fits(self, id: u64) -> bool {
        self.can_redeem(id) ==> self.points - self.rewards[self.reward_index(id)].cost <= i64::MAX
    }

    /// The balance after a redemption: the cost is taken where it is covered.
    pub open spec fn redeemed(self, id: u64) -> AccountView {
        if self.can_redeem(id) {
            AccountView { points: (self.points - self.rewards[self.reward_index(id)].cost) as i64, ..self }
        } else {
            self
        }
    }

    /// A break joins the weekly list or the one-time list, by its flag.
    pub open spec fn with_break(self, b: Break) -> AccountView {
        if b.is_regular {
            AccountView { regular_breaks: self.regular_breaks.push(b), ..self }
        } else {
            AccountView { one_time_breaks: self.one_time_breaks.push(b), ..self }
        }
    }

    /// Weekly breaks of exactly this span, or one-time breaks of exactly this
    /// span and date, are removed.
    pub open spec fn without_breaks(self, start: i64, end: i64, is_regular: bool, date: Option<u64>) -> AccountView {
        if is_regular {
            AccountView { regular_breaks: self.regular_breaks.filter(keeps_regular(start, end)), ..self }
        } else {
            AccountView {
                one_time_breaks: self.one_time_breaks.filter(keeps_one_time(start, end, date)),
                ..self
            }
        }
    }

    /// The first break of exactly the old span in the selected list gets the
    /// new span, and a one-time break also the new date.
    pub open spec fn with_break_moved(
        self,
        old_start: i64,
        old_end: i64,
        new_start: i64,
        new_end: i64,
        is_regular: bool,
        new_date: Option<u64>,
    ) -> AccountView {
        if is_regular {
            if exists|j: int| first_break(self.regular_breaks, old_start, old_end, j) {
                let j = choose|j: int| first_break(self.regular_breaks, old_start, old_end, j);
                let b = self.regular_breaks[j];
                AccountView {
                    regular_breaks: self.regular_breaks.update(j, Break { start_time: new_start, end_time: new_end, ..b }),
                    ..self
                }
            } else {
                self
            }
        } else {
            if exists|j: int| first_break(self.one_time_breaks, old_start, old_end, j) {
                let j = choose|j: int| first_break(self.one_time_breaks, old_start, old_end, j);
                let b = self.one_time_breaks[j];
                AccountView {
                    one_time_breaks: self.one_time_breaks.update(
                        j,
                        Break { start_time: new_start, end_time: new_end, date: new_date, ..b },
                    ),
                    ..self
                }
            } else {
                self
            }
        }
    }
}

pub proof fn lemma_first_task_unique(s: Seq<Task>, id: u64, j: int)
    requires
        first_task(s, id, j),
    ensures
        (choose|k: int| first_task(s, id, k)) == j,
{
    let k = choose|k: int| first_task(s, id, k);
    assert(first_task(s, id, k));
}

pub proof fn lemma_first_reward_unique(s: Seq<Reward>, id: u64, j: int)
    requires
        first_reward(s, id, j),
    ensures
        (choose|k: int| first_reward(s, id, k)) == j,
{
    let k = choose|k: int| first_reward(s, id, k);
    assert(first_reward(s, id, k));
}

pub proof fn lemma_first_break_unique(s: Seq<Break>, start: i64, end: i64, j: int)
    requires
        first_break(s, start, end, j),
    ensures
        (choose|k: int| first_break(s, start, end, k)) == j,
{
    let k = choose|k: int| first_break(s, start, end, k);
    assert(first_break(s, start, end, k));
}

/// With distinct days, the entry found for a day is the one counted.
pub proof fn lemma_day_at(s: Seq<(u64, u32)>, day: u64, i: int)
    requires
        days_distinct(s),
        0 <= i < s.len(),
        s[i].0 == day,
    ensures
        (choose|k: int| 0 <= k < s.len() && s[k].0 == day) == i,
        count_on(s, day) == s[i].1,
{
    let k = choose|k: int| 0 <= k < s.len() && s[k].0 == day;
    assert(0 <= k < s.len() && s[k].0 == day);
}

} // verus!

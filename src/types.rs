//! The records that an account keeps: tasks, rewards, schedules and breaks.
//!
//! Times of day and durations are held as whole minutes (9:30 is 570), so
//! that they compare exactly.
use vstd::prelude::*;

verus! {

/// The identifier of an account that owns tasks, rewards and schedules.
#[derive(Clone, Debug, PartialEq, Eq)]
pub struct AccountIdWrapper(pub String);

impl AccountIdWrapper {
    pub open spec fn view(&self) -> Seq<char> {
        self.0@
    }

    pub fn duplicate(&self) -> (r: AccountIdWrapper)
        ensures
            r == *self,
    {
        AccountIdWrapper(self.0.clone())
    }

    pub fn same_as(&self, other: &AccountIdWrapper) -> (r: bool)
        ensures
            r == (self@ == other@),
    {
        self.0 == other.0
    }
}

/// A balance of reward points held by one account.
#[derive(Clone, Debug, PartialEq, Eq)]
pub struct AccountRewardPoints {
    pub owner: AccountIdWrapper,
    pub points: i64,
}

/// A task: identified by its position-derived id within its owner's list.
#[derive(Clone, Debug, PartialEq, Eq)]
pub struct Task {
    pub id: u64,
    pub title: String,
    pub description: String,
    pub priority: u8,
    /// A timestamp, stored as given.
    pub deadline: Option<u64>,
    /// Minutes.
    pub estimated_time: Option<i64>,
    pub reward_points: i64,
    pub completed: bool,
    /// Minutes after midnight.
    pub preferred_start_time: Option<i64>,
    /// Minutes after midnight.
    pub preferred_end_time: Option<i64>,
    pub owner: AccountIdWrapper,
}

impl Task {
    pub fn duplicate(&self) -> (r: Task)
        ensures
            r == *self,
    {
        Task {
            id: self.id,
            title: self.title.clone(),
            description: self.description.clone(),
            priority: self.priority,
            deadline: self.deadline,
            estimated_time: self.estimated_time,
            reward_points: self.reward_points,
            completed: self.completed,
            preferred_start_time: self.preferred_start_time,
            preferred_end_time: self.preferred_end_time,
            owner: self.owner.duplicate(),
        }
    }
}

/// A reward that can be bought with points.
#[derive(Clone, Debug, PartialEq, Eq)]
pub struct Reward {
    pub id: u64,
    pub title: String,
    pub description: String,
    pub cost: i64,
}

impl Reward {
    pub fn duplicate(&self) -> (r: Reward)
        ensures
            r == *self,
    {
        Reward { id: self.id, title: self.title.clone(), description: self.description.clone(), cost: self.cost }
    }
}

/// Working hours of one day, in minutes after midnight.
#[derive(Clone, Copy, Debug, PartialEq, Eq)]
pub struct WorkingHours {
    pub start_time: i64,
    pub end_time: i64,
}

/// Working hours for each day of the week.
#[derive(Clone, Copy, Debug, PartialEq, Eq)]
pub struct WeeklyWorkingHours {
    pub monday: WorkingHours,
    pub tuesday: WorkingHours,
    pub wednesday: WorkingHours,
    pub thursday: WorkingHours,
    pub friday: WorkingHours,
    pub saturday: WorkingHours,
    pub sunday: WorkingHours,
}

/// Start of the working day that applies where none was stored: 9:00.
pub const DEFAULT_DAY_START: i64 = 540;

/// End of the working day that applies where none was stored: 16:00.
pub const DEFAULT_DAY_END: i64 = 960;

impl WeeklyWorkingHours {
    /// The seven days, Monday first.
    pub open spec fn days(&self) -> Seq<WorkingHours> {
        seq![self.monday, self.tuesday, self.wednesday, self.thursday, self.friday, self.saturday, self.sunday]
    }

    /// Every day from nine to four.
    pub open spec fn standard_spec() -> WeeklyWorkingHours {
        let day = WorkingHours { start_time: DEFAULT_DAY_START, end_time: DEFAULT_DAY_END };
        WeeklyWorkingHours {
            monday: day,
            tuesday: day,
            wednesday: day,
            thursday: day,
            friday: day,
            saturday: day,
            sunday: day,
        }
    }

    /// The template that applies to an account that stored none.
    pub fn standard() -> (r: WeeklyWorkingHours)
        ensures
            r == WeeklyWorkingHours::standard_spec(),
            r.days().len() == 7,
            forall|i: int|
                0 <= i < 7 ==> r.days()[i] == (WorkingHours { start_time: DEFAULT_DAY_START, end_time: DEFAULT_DAY_END }),
    {
        let day = WorkingHours { start_time: DEFAULT_DAY_START, end_time: DEFAULT_DAY_END };
        WeeklyWorkingHours {
            monday: day,
            tuesday: day,
            wednesday: day,
            thursday: day,
            friday: day,
            saturday: day,
            sunday: day,
        }
    }
}

/// A planned slot of one day, in minutes after midnight, possibly for a task.
#[derive(Clone, Copy, Debug, PartialEq, Eq)]
pub struct TimeSlot {
    pub start_time: i64,
    pub end_time: i64,
    pub task_id: Option<u64>,
}

/// The planned slots of each day of the week.
#[derive(Clone, Debug, PartialEq, Eq)]
pub struct TimeSlots {
    pub monday: Vec<TimeSlot>,
    pub tuesday: Vec<TimeSlot>,
    pub wednesday: Vec<TimeSlot>,
    pub thursday: Vec<TimeSlot>,
    pub friday: Vec<TimeSlot>,
    pub saturday: Vec<TimeSlot>,
    pub sunday: Vec<TimeSlot>,
}

impl TimeSlots {
    /// The slots of the seven days, Monday first.
    pub open spec fn view(&self) -> Seq<Seq<TimeSlot>> {
        seq![
            self.monday@,
            self.tuesday@,
            self.wednesday@,
            self.thursday@,
            self.friday@,
            self.saturday@,
            self.sunday@,
        ]
    }

    pub fn duplicate(&self) -> (r: TimeSlots)
        ensures
            r@ == self@,
    {
        TimeSlots {
            monday: copy_all(&self.monday),
            tuesday: copy_all(&self.tuesday),
            wednesday: copy_all(&self.wednesday),
            thursday: copy_all(&self.thursday),
            friday: copy_all(&self.friday),
            saturday: copy_all(&self.saturday),
            sunday: copy_all(&self.sunday),
        }
    }
}

/// A break, in minutes after midnight: weekly, or once on a date.
#[derive(Clone, Copy, Debug, PartialEq, Eq)]
pub struct Break {
    pub start_time: i64,
    pub end_time: i64,
    pub is_regular: bool,
    pub date: Option<u64>,
}

/// The weekly breaks and the one-time breaks of an account.
#[derive(Clone, Debug, PartialEq, Eq)]
pub struct AccountBreaks {
    pub regular_breaks: Vec<Break>,
    pub one_time_breaks: Vec<Break>,
}

impl AccountBreaks {
    pub fn empty() -> (r: AccountBreaks)
        ensures
            r.regular_breaks@ == Seq::<Break>::empty(),
            r.one_time_breaks@ == Seq::<Break>::empty(),
    {
        AccountBreaks { regular_breaks: Vec::new(), one_time_breaks: Vec::new() }
    }
}

/// An element-by-element copy of a vector of plain values.
pub fn copy_all<T: Copy>(v: &Vec<T>) -> (r: Vec<T>)
    ensures
        r@ == v@,
{
    let mut r: Vec<T> = Vec::new();
    let mut i: usize = 0;
    while i < v.len()
        invariant
            i <= v.len(),
            r@ == v@.subrange(0, i as int),
        decreases v.len() - i,
    {
        r.push(v[i]);
        i = i + 1;
    }
    assert(r@ =~= v@);
    r
}

} // verus!

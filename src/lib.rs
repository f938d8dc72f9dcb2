//! Per-account bookkeeping of tasks, rewards, points, schedules and breaks.
//!
//! Every changing operation acts for the calling account that it is given;
//! every reading operation may be asked about any account.
use vstd::prelude::*;

pub mod account;
pub mod day;
pub mod laws;
pub mod ledger;
pub mod types;

pub use ledger::{AccountRecord, TodoListV1};
pub use types::{
    AccountBreaks, AccountIdWrapper, AccountRewardPoints, Break, Reward, Task, TimeSlot, TimeSlots, WeeklyWorkingHours,
    WorkingHours,
};

verus! {

} // verus!

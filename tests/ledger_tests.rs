use todo_list::{AccountIdWrapper, TimeSlot, TimeSlots, TodoListV1, WeeklyWorkingHours, WorkingHours};

const START: u64 = 1_640_995_200_000_000_000;

fn bob() -> AccountIdWrapper {
    AccountIdWrapper("bob.near".to_string())
}

fn alice() -> AccountIdWrapper {
    AccountIdWrapper("alice.near".to_string())
}

fn add_sample_task(contract: &mut TodoListV1) {
    contract.add_task(
        &bob(),
        "Test Task".to_string(),
        "Task Description".to_string(),
        1,
        Some(1_640_995_200_000_000_000),
        Some(120),
        10,
        Some(540),
        Some(660),
    );
}

#[test]
fn test_add_task() {
    let mut contract = TodoListV1::new();
    add_sample_task(&mut contract);

    let tasks = contract.get_tasks(&bob());
    assert_eq!(tasks.len(), 1);
    let task = &tasks[0];
    assert_eq!(task.title, "Test Task");
    assert_eq!(task.description, "Task Description");
    assert_eq!(task.priority, 1);
    assert_eq!(task.deadline, Some(1_640_995_200_000_000_000));
    assert_eq!(task.estimated_time, Some(120));
    assert_eq!(task.reward_points, 10);
    assert_eq!(task.preferred_start_time, Some(540));
    assert_eq!(task.preferred_end_time, Some(660));
}

#[test]
fn test_update_task() {
    let mut contract = TodoListV1::new();
    add_sample_task(&mut contract);

    let tasks = contract.get_tasks(&bob());
    let task_id = tasks[0].id;

    contract.update_task(
        &bob(),
        task_id,
        "Updated Task".to_string(),
        "Updated Description".to_string(),
        2,
        Some(1_641_995_200_000_000_000),
        Some(180),
        20,
        Some(600),
        Some(720),
    );

    let tasks = contract.get_tasks(&bob());
    assert_eq!(tasks.len(), 1);
    let task = &tasks[0];
    assert_eq!(task.title, "Updated Task");
    assert_eq!(task.description, "Updated Description");
    assert_eq!(task.priority, 2);
    assert_eq!(task.deadline, Some(1_641_995_200_000_000_000));
    assert_eq!(task.estimated_time, Some(180));
    assert_eq!(task.reward_points, 20);
    assert_eq!(task.preferred_start_time, Some(600));
    assert_eq!(task.preferred_end_time, Some(720));
}

#[test]
fn test_remove_task() {
    let mut contract = TodoListV1::new();
    add_sample_task(&mut contract);

    let tasks = contract.get_tasks(&bob());
    let task_id = tasks[0].id;

    contract.remove_task(&bob(), task_id);
    let tasks = contract.get_tasks(&bob());
    assert_eq!(tasks.len(), 0);
}

#[test]
fn test_add_reward() {
    let mut contract = TodoListV1::new();
    contract.add_reward(&bob(), "Reward".to_string(), "Reward Description".to_string(), 50);

    let rewards = contract.get_rewards(&bob());
    assert_eq!(rewards.len(), 1);
    let reward = &rewards[0];
    assert_eq!(reward.title, "Reward");
    assert_eq!(reward.description, "Reward Description");
    assert_eq!(reward.cost, 50);
}

#[test]
fn test_remove_reward() {
    let mut contract = TodoListV1::new();
    contract.add_reward(&bob(), "Reward".to_string(), "Reward Description".to_string(), 50);

    let rewards = contract.get_rewards(&bob());
    let reward_id = rewards[0].id;

    contract.remove_reward(&bob(), reward_id);
    let rewards = contract.get_rewards(&bob());
    assert_eq!(rewards.len(), 0);
}

/// The balance of 100 is credited by completing a task worth 100 points.
#[test]
fn test_redeem_reward() {
    let mut contract = TodoListV1::new();
    contract.add_reward(&bob(), "Reward".to_string(), "Reward Description".to_string(), 50);

    let rewards = contract.get_rewards(&bob());
    let reward_id = rewards[0].id;

    contract.add_task(&bob(), "Earn".to_string(), "Points".to_string(), 1, None, None, 100, None, None);
    contract.mark_complete(&bob(), 1, START);
    assert_eq!(contract.get_account_reward_points(&bob()), 100);

    let result = contract.redeem_reward(&bob(), reward_id);
    assert!(result);
    let points = contract.get_account_reward_points(&bob());
    assert_eq!(points, 50);
}

#[test]
fn test_update_completed_tasks_per_day() {
    let mut contract = TodoListV1::new();
    add_sample_task(&mut contract);

    let tasks = contract.get_tasks(&bob());
    let task_id = tasks[0].id;

    contract.mark_complete(&bob(), task_id, START);
    let completed_tasks = contract.get_completed_tasks_per_day(&bob());
    assert_eq!(completed_tasks.len(), 1);
}

#[test]
fn test_update_working_hours() {
    let mut contract = TodoListV1::new();

    let working_hours = WeeklyWorkingHours {
        monday: WorkingHours { start_time: 540, end_time: 1020 },
        tuesday: WorkingHours { start_time: 540, end_time: 1020 },
        wednesday: WorkingHours { start_time: 540, end_time: 1020 },
        thursday: WorkingHours { start_time: 540, end_time: 1020 },
        friday: WorkingHours { start_time: 540, end_time: 1020 },
        saturday: WorkingHours { start_time: 540, end_time: 720 },
        sunday: WorkingHours { start_time: 0, end_time: 0 },
    };

    contract.update_working_hours(&bob(), working_hours.clone());

    let stored_hours = contract.get_working_hours(&bob());
    assert_eq!(stored_hours, working_hours);
}

fn one_slot_week() -> TimeSlots {
    TimeSlots {
        monday: vec![TimeSlot { start_time: 540, end_time: 600, task_id: Some(1) }],
        tuesday: vec![],
        wednesday: vec![],
        thursday: vec![],
        friday: vec![],
        saturday: vec![],
        sunday: vec![],
    }
}

#[test]
fn test_update_time_slots() {
    let mut contract = TodoListV1::new();
    let time_slots = one_slot_week();

    contract.update_time_slots(&bob(), time_slots.clone());

    let stored_slots = contract.get_time_slots(&bob()).unwrap();
    assert_eq!(stored_slots, time_slots);
}

#[test]
fn test_add_regular_break() {
    let mut contract = TodoListV1::new();
    contract.add_break(&bob(), 540, 600, true, None);

    let breaks = contract.get_breaks(&bob());
    assert_eq!(breaks.regular_breaks.len(), 1);
    assert_eq!(breaks.one_time_breaks.len(), 0);
    let regular_break = &breaks.regular_breaks[0];
    assert_eq!(regular_break.start_time, 540);
    assert_eq!(regular_break.end_time, 600);
    assert!(regular_break.date.is_none());
}

#[test]
fn test_add_one_time_break() {
    let mut contract = TodoListV1::new();
    contract.add_break(&bob(), 540, 600, false, Some(1_640_995_200_000));

    let breaks = contract.get_breaks(&bob());
    assert_eq!(breaks.regular_breaks.len(), 0);
    assert_eq!(breaks.one_time_breaks.len(), 1);
    let one_time_break = &breaks.one_time_breaks[0];
    assert_eq!(one_time_break.start_time, 540);
    assert_eq!(one_time_break.end_time, 600);
    assert_eq!(one_time_break.date, Some(1_640_995_200_000));
}

#[test]
fn test_remove_regular_break() {
    let mut contract = TodoListV1::new();
    contract.add_break(&bob(), 540, 600, true, None);
    contract.remove_break(&bob(), 540, 600, true, None);

    let breaks = contract.get_breaks(&bob());
    assert_eq!(breaks.regular_breaks.len(), 0);
}

#[test]
fn test_remove_one_time_break() {
    let mut contract = TodoListV1::new();
    contract.add_break(&bob(), 540, 600, false, Some(1_640_995_200_000));
    contract.remove_break(&bob(), 540, 600, false, Some(1_640_995_200_000));

    let breaks = contract.get_breaks(&bob());
    assert_eq!(breaks.one_time_breaks.len(), 0);
}

#[test]
fn test_update_regular_break() {
    let mut contract = TodoListV1::new();
    contract.add_break(&bob(), 540, 600, true, None);
    contract.update_break(&bob(), 540, 600, 600, 660, true, None);

    let breaks = contract.get_breaks(&bob());
    assert_eq!(breaks.regular_breaks.len(), 1);
    let break_ = &breaks.regular_breaks[0];
    assert_eq!(break_.start_time, 600);
    assert_eq!(break_.end_time, 660);
    assert_eq!(break_.is_regular, true);
}

#[test]
fn test_update_one_time_break() {
    let mut contract = TodoListV1::new();
    contract.add_break(&bob(), 540, 600, false, Some(1_640_995_200_000));
    contract.update_break(&bob(), 540, 600, 600, 660, false, Some(1_641_995_200_000));

    let breaks = contract.get_breaks(&bob());
    assert_eq!(breaks.one_time_breaks.len(), 1);
    let one_time_break = &breaks.one_time_breaks[0];
    assert_eq!(one_time_break.start_time, 600);
    assert_eq!(one_time_break.end_time, 660);
    assert_eq!(one_time_break.date, Some(1_641_995_200_000));
}

#[test]
fn completing_twice_counts_twice() {
    let mut contract = TodoListV1::new();
    contract.add_task(&bob(), "T".to_string(), "D".to_string(), 1, None, None, 10, None, None);
    let tasks = contract.get_tasks(&bob());
    assert_eq!(tasks.len(), 1);
    assert_eq!(tasks[0].id, 1);
    assert!(!tasks[0].completed);

    contract.mark_complete(&bob(), 1, START);
    assert_eq!(contract.get_account_reward_points(&bob()), 10);
    let per_day = contract.get_completed_tasks_per_day(&bob());
    assert_eq!(per_day, vec![("18993".to_string(), 1)]);
    assert!(contract.get_tasks(&bob())[0].completed);

    contract.mark_complete(&bob(), 1, START + 3_600_000_000_000);
    assert_eq!(contract.get_account_reward_points(&bob()), 20);
    let per_day = contract.get_completed_tasks_per_day(&bob());
    assert_eq!(per_day, vec![("18993".to_string(), 2)]);
}

#[test]
fn completions_on_another_day_get_their_own_entry() {
    let mut contract = TodoListV1::new();
    add_sample_task(&mut contract);
    contract.mark_complete(&bob(), 1, START);
    contract.mark_complete(&bob(), 1, START + 86_400_000_000_000);
    let per_day = contract.get_completed_tasks_per_day(&bob());
    assert_eq!(per_day, vec![("18993".to_string(), 1), ("18994".to_string(), 1)]);
}

#[test]
fn redeeming_until_the_balance_runs_out() {
    let mut contract = TodoListV1::new();
    contract.add_reward(&bob(), "R".to_string(), "D".to_string(), 50);
    contract.add_task(&bob(), "Earn".to_string(), "Points".to_string(), 1, None, None, 100, None, None);
    contract.mark_complete(&bob(), 1, START);
    assert_eq!(contract.get_account_reward_points(&bob()), 100);

    assert!(contract.redeem_reward(&bob(), 1));
    assert_eq!(contract.get_account_reward_points(&bob()), 50);
    assert!(contract.redeem_reward(&bob(), 1));
    assert_eq!(contract.get_account_reward_points(&bob()), 0);
    assert!(!contract.redeem_reward(&bob(), 1));
    assert_eq!(contract.get_account_reward_points(&bob()), 0);
}

#[test]
fn redeeming_an_unknown_reward_fails() {
    let mut contract = TodoListV1::new();
    contract.add_task(&bob(), "Earn".to_string(), "Points".to_string(), 1, None, None, 100, None, None);
    contract.mark_complete(&bob(), 1, START);
    assert!(!contract.redeem_reward(&bob(), 7));
    assert_eq!(contract.get_account_reward_points(&bob()), 100);
}

#[test]
fn negative_points_floor_the_balance_at_zero() {
    let mut contract = TodoListV1::new();
    contract.add_task(&bob(), "Good".to_string(), "".to_string(), 1, None, None, 5, None, None);
    contract.add_task(&bob(), "Bad".to_string(), "".to_string(), 1, None, None, -20, None, None);
    contract.mark_complete(&bob(), 1, START);
    assert_eq!(contract.get_account_reward_points(&bob()), 5);
    contract.mark_complete(&bob(), 2, START);
    assert_eq!(contract.get_account_reward_points(&bob()), 0);
}

#[test]
fn completing_an_unknown_task_changes_nothing() {
    let mut contract = TodoListV1::new();
    add_sample_task(&mut contract);
    contract.mark_complete(&bob(), 9, START);
    assert_eq!(contract.get_account_reward_points(&bob()), 0);
    assert!(contract.get_completed_tasks_per_day(&bob()).is_empty());
    assert!(!contract.get_tasks(&bob())[0].completed);
}

#[test]
fn accounts_start_empty() {
    let mut contract = TodoListV1::new();
    assert!(contract.get_tasks(&bob()).is_empty());
    contract.add_task(&alice(), "A".to_string(), "".to_string(), 1, None, None, 1, None, None);
    contract.add_reward(&alice(), "R".to_string(), "".to_string(), 1);
    assert!(contract.get_tasks(&bob()).is_empty());
    assert!(contract.get_rewards(&bob()).is_empty());
    assert_eq!(contract.get_account_reward_points(&bob()), 0);
    assert!(contract.get_completed_tasks_per_day(&bob()).is_empty());
    let breaks = contract.get_breaks(&bob());
    assert!(breaks.regular_breaks.is_empty() && breaks.one_time_breaks.is_empty());
}

#[test]
fn task_ids_follow_the_count_and_are_reused() {
    let mut contract = TodoListV1::new();
    for title in ["a", "b", "c"] {
        contract.add_task(&bob(), title.to_string(), "".to_string(), 1, None, None, 0, None, None);
    }
    let ids: Vec<u64> = contract.get_tasks(&bob()).iter().map(|t| t.id).collect();
    assert_eq!(ids, vec![1, 2, 3]);
    contract.remove_task(&bob(), 1);
    contract.add_task(&bob(), "d".to_string(), "".to_string(), 1, None, None, 0, None, None);
    let ids: Vec<u64> = contract.get_tasks(&bob()).iter().map(|t| t.id).collect();
    assert_eq!(ids, vec![2, 3, 3]);
    contract.remove_task(&bob(), 3);
    let ids: Vec<u64> = contract.get_tasks(&bob()).iter().map(|t| t.id).collect();
    assert_eq!(ids, vec![2]);
}

#[test]
fn reward_ids_follow_the_count() {
    let mut contract = TodoListV1::new();
    contract.add_reward(&bob(), "a".to_string(), "".to_string(), 1);
    contract.add_reward(&bob(), "b".to_string(), "".to_string(), 2);
    let ids: Vec<u64> = contract.get_rewards(&bob()).iter().map(|r| r.id).collect();
    assert_eq!(ids, vec![1, 2]);
}

#[test]
fn update_of_an_unknown_task_changes_nothing() {
    let mut contract = TodoListV1::new();
    add_sample_task(&mut contract);
    let before = contract.get_tasks(&bob());
    contract.update_task(&bob(), 5, "X".to_string(), "Y".to_string(), 3, None, None, 1, None, None);
    assert_eq!(contract.get_tasks(&bob()), before);
}

#[test]
fn other_accounts_cannot_change_a_task() {
    let mut contract = TodoListV1::new();
    add_sample_task(&mut contract);
    contract.remove_task(&alice(), 1);
    contract.mark_complete(&alice(), 1, START);
    assert_eq!(contract.get_tasks(&bob()).len(), 1);
    assert_eq!(contract.get_account_reward_points(&bob()), 0);
}

#[test]
fn breaks_match_by_exact_span() {
    let mut contract = TodoListV1::new();
    contract.add_break(&bob(), 540, 600, true, None);
    contract.remove_break(&bob(), 540, 601, true, None);
    contract.update_break(&bob(), 541, 600, 0, 1, true, None);
    let breaks = contract.get_breaks(&bob());
    assert_eq!(breaks.regular_breaks.len(), 1);
    assert_eq!(breaks.regular_breaks[0].start_time, 540);
    assert_eq!(breaks.regular_breaks[0].end_time, 600);
    contract.remove_break(&bob(), 540, 600, true, None);
    assert!(contract.get_breaks(&bob()).regular_breaks.is_empty());
}

#[test]
fn one_time_breaks_also_match_the_date() {
    let mut contract = TodoListV1::new();
    contract.add_break(&bob(), 540, 600, false, Some(7));
    contract.remove_break(&bob(), 540, 600, false, Some(8));
    assert_eq!(contract.get_breaks(&bob()).one_time_breaks.len(), 1);
    contract.remove_break(&bob(), 540, 600, false, None);
    assert_eq!(contract.get_breaks(&bob()).one_time_breaks.len(), 1);
    contract.remove_break(&bob(), 540, 600, true, Some(7));
    assert_eq!(contract.get_breaks(&bob()).one_time_breaks.len(), 1);
    contract.remove_break(&bob(), 540, 600, false, Some(7));
    assert!(contract.get_breaks(&bob()).one_time_breaks.is_empty());
}

#[test]
fn update_break_moves_only_the_first_match() {
    let mut contract = TodoListV1::new();
    contract.add_break(&bob(), 540, 600, true, None);
    contract.add_break(&bob(), 540, 600, true, None);
    contract.update_break(&bob(), 540, 600, 700, 760, true, None);
    let breaks = contract.get_breaks(&bob());
    assert_eq!(breaks.regular_breaks.len(), 2);
    assert_eq!((breaks.regular_breaks[0].start_time, breaks.regular_breaks[0].end_time), (700, 760));
    assert_eq!((breaks.regular_breaks[1].start_time, breaks.regular_breaks[1].end_time), (540, 600));
}

#[test]
fn remove_break_removes_every_match() {
    let mut contract = TodoListV1::new();
    contract.add_break(&bob(), 540, 600, true, None);
    contract.add_break(&bob(), 300, 330, true, None);
    contract.add_break(&bob(), 540, 600, true, None);
    contract.remove_break(&bob(), 540, 600, true, None);
    let breaks = contract.get_breaks(&bob());
    assert_eq!(breaks.regular_breaks.len(), 1);
    assert_eq!(breaks.regular_breaks[0].start_time, 300);
}

#[test]
fn a_weekly_break_keeps_no_date() {
    let mut contract = TodoListV1::new();
    contract.add_break(&bob(), 540, 600, true, Some(5));
    let breaks = contract.get_breaks(&bob());
    assert_eq!(breaks.regular_breaks[0].date, None);
    assert!(breaks.one_time_breaks.is_empty());
}

#[test]
fn default_working_hours_are_nine_to_four() {
    let contract = TodoListV1::new();
    let hours = contract.get_working_hours(&bob());
    let day = WorkingHours { start_time: 540, end_time: 960 };
    for d in [hours.monday, hours.tuesday, hours.wednesday, hours.thursday, hours.friday, hours.saturday, hours.sunday] {
        assert_eq!(d, day);
    }
}

#[test]
fn time_slots_unset_differs_from_an_empty_week() {
    let mut contract = TodoListV1::new();
    assert!(contract.get_time_slots(&bob()).is_none());
    let empty = TimeSlots {
        monday: vec![],
        tuesday: vec![],
        wednesday: vec![],
        thursday: vec![],
        friday: vec![],
        saturday: vec![],
        sunday: vec![],
    };
    contract.update_time_slots(&bob(), empty.clone());
    assert_eq!(contract.get_time_slots(&bob()), Some(empty));
    assert!(contract.get_time_slots(&alice()).is_none());
}

#[test]
fn working_hours_are_replaced_whole() {
    let mut contract = TodoListV1::new();
    let mut week = WeeklyWorkingHours {
        monday: WorkingHours { start_time: 480, end_time: 900 },
        tuesday: WorkingHours { start_time: 480, end_time: 900 },
        wednesday: WorkingHours { start_time: 480, end_time: 900 },
        thursday: WorkingHours { start_time: 480, end_time: 900 },
        friday: WorkingHours { start_time: 480, end_time: 900 },
        saturday: WorkingHours { start_time: 0, end_time: 0 },
        sunday: WorkingHours { start_time: 0, end_time: 0 },
    };
    contract.update_working_hours(&bob(), week);
    week.monday = WorkingHours { start_time: 600, end_time: 660 };
    contract.update_working_hours(&bob(), week);
    assert_eq!(contract.get_working_hours(&bob()), week);
    assert_eq!(contract.get_working_hours(&alice()).monday, WorkingHours { start_time: 540, end_time: 960 });
}

#[test]
fn overflow_checks_report_what_fits() {
    let mut contract = TodoListV1::new();
    contract.add_task(&bob(), "Big".to_string(), "".to_string(), 1, None, None, i64::MAX, None, None);
    assert!(contract.can_mark_complete(&bob(), 1, START));
    contract.mark_complete(&bob(), 1, START);
    assert_eq!(contract.get_account_reward_points(&bob()), i64::MAX);
    assert!(!contract.can_mark_complete(&bob(), 1, START));
    assert!(contract.can_mark_complete(&bob(), 2, START));

    contract.add_reward(&bob(), "Gift".to_string(), "".to_string(), -1);
    assert!(!contract.can_redeem_reward(&bob(), 1));
    contract.add_reward(&bob(), "Paid".to_string(), "".to_string(), 1);
    assert!(contract.can_redeem_reward(&bob(), 2));
    assert!(contract.can_redeem_reward(&bob(), 3));
}

#[test]
fn records_round_trip() {
    let mut contract = TodoListV1::new();
    add_sample_task(&mut contract);
    contract.mark_complete(&bob(), 1, START);
    contract.add_reward(&alice(), "R".to_string(), "D".to_string(), 3);
    contract.add_break(&alice(), 60, 90, false, Some(4));
    contract.update_time_slots(&bob(), one_slot_week());

    let restored = TodoListV1::from_records(contract.into_records()).unwrap();
    assert_eq!(restored.get_tasks(&bob()).len(), 1);
    assert!(restored.get_tasks(&bob())[0].completed);
    assert_eq!(restored.get_account_reward_points(&bob()), 10);
    assert_eq!(restored.get_completed_tasks_per_day(&bob()), vec![("18993".to_string(), 1)]);
    assert_eq!(restored.get_rewards(&alice())[0].cost, 3);
    assert_eq!(restored.get_breaks(&alice()).one_time_breaks[0].date, Some(4));
    assert_eq!(restored.get_time_slots(&bob()), Some(one_slot_week()));
}

#[test]
fn invalid_records_are_refused() {
    let mut a = TodoListV1::new();
    add_sample_task(&mut a);
    let mut records = a.into_records();
    let mut b = TodoListV1::new();
    add_sample_task(&mut b);
    records.extend(b.into_records());
    assert!(TodoListV1::from_records(records).is_none());

    let mut c = TodoListV1::new();
    add_sample_task(&mut c);
    let mut records = c.into_records();
    records[0].points = -1;
    assert!(TodoListV1::from_records(records).is_none());

    let mut d = TodoListV1::new();
    add_sample_task(&mut d);
    let mut records = d.into_records();
    records[0].completions = vec![(3, 1), (3, 2)];
    assert!(TodoListV1::from_records(records).is_none());
}

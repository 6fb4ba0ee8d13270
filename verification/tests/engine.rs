//! End-to-end tests of the queue engine: scenarios over the task stack
//! with deterministic ids and timestamps, plus runs against the real
//! clock and id generator.

use task_stack::error::TaskError;
use task_stack::model::CURRENT_WINDOW_MILLIS;
use task_stack::store::Store;
use task_stack::tasks::{CompletionPolicy, TaskStack, TaskState};

const LIST: u128 = 7;

fn empty_stack() -> TaskStack {
    TaskStack::new(Store::new(), LIST)
}

#[test]
fn add_then_first_active_returns_added_task() {
    let mut stack = empty_stack();
    stack.push_with("t".to_string(), None, 1, 100).unwrap();
    let t = stack.first_active().expect("one active task");
    assert_eq!(t.title, "t");
    assert_eq!(t.state, TaskState::Active);
    assert_eq!(t.completed_at, None);
}

#[test]
fn add_assigns_position_zero_then_one() {
    let mut stack = empty_stack();
    stack.push_with("a".to_string(), None, 1, 100).unwrap();
    assert_eq!(stack.highest_position(), 0);
    stack.push_with("b".to_string(), None, 2, 101).unwrap();
    assert_eq!(stack.highest_position(), 1);
    assert_eq!(stack.size(), 2);
}

#[test]
fn complete_records_timestamp_and_returns_task() {
    let mut stack = empty_stack();
    stack.push_with("t".to_string(), None, 1, 100).unwrap();
    let done = stack.complete_task_at(1, 5000).unwrap();
    assert_eq!(done.state, TaskState::Completed);
    assert_eq!(done.completed_at, Some(5000));
    assert_eq!(done.title, "t");
}

#[test]
fn complete_twice_fails_with_invalid_transition() {
    let mut stack = empty_stack();
    stack.push_with("t".to_string(), None, 1, 100).unwrap();
    stack.complete_task_at(1, 5000).unwrap();
    assert_eq!(
        stack.complete_task_at(1, 6000).unwrap_err(),
        TaskError::InvalidTransition
    );
}

#[test]
fn complete_unknown_id_fails_with_not_found() {
    let mut stack = empty_stack();
    stack.push_with("t".to_string(), None, 1, 100).unwrap();
    assert_eq!(stack.complete_task_at(99, 5000).unwrap_err(), TaskError::NotFound);
}

#[test]
fn complete_with_wall_clock_sets_time_at_or_after_call() {
    let mut stack = empty_stack();
    stack.push_with("t".to_string(), None, 1, 100).unwrap();
    let before = chrono::Utc::now().timestamp_millis();
    let done = stack.complete_task(1).unwrap();
    let after = chrono::Utc::now().timestamp_millis();
    let at = done.completed_at.expect("completion time recorded");
    assert!(at >= before && at <= after);
}

#[test]
fn move_to_end_assigns_strictly_greater_position_monotonically() {
    let mut stack = empty_stack();
    stack.push_with("a".to_string(), None, 1, 100).unwrap();
    stack.push_with("b".to_string(), None, 2, 101).unwrap();
    assert_eq!(stack.highest_position(), 1);
    stack.move_to_end(1).unwrap();
    assert_eq!(stack.highest_position(), 2);
    stack.move_to_end(1).unwrap();
    assert_eq!(stack.highest_position(), 3);
    stack.move_to_end(2).unwrap();
    assert_eq!(stack.highest_position(), 4);
}

#[test]
fn move_to_end_of_unknown_id_fails_with_not_found() {
    let mut stack = empty_stack();
    stack.push_with("a".to_string(), None, 1, 100).unwrap();
    assert_eq!(stack.move_to_end(99), Err(TaskError::NotFound));
}

#[test]
fn current_tasks_window_includes_recent_excludes_old() {
    let now: i64 = 1_000_000_000_000;
    let mut stack = empty_stack();
    stack.push_with("recent".to_string(), None, 1, 100).unwrap();
    stack.push_with("old".to_string(), None, 2, 101).unwrap();
    stack.push_with("active".to_string(), None, 3, 102).unwrap();
    stack.complete_task_at(1, now - 60 * 1000).unwrap();
    stack.complete_task_at(2, now - 13 * 60 * 60 * 1000).unwrap();
    let current = stack.get_current_tasks_at(now);
    let titles: Vec<&str> = current.iter().map(|t| t.title.as_str()).collect();
    assert!(titles.contains(&"recent"));
    assert!(titles.contains(&"active"));
    assert!(!titles.contains(&"old"));
}

#[test]
fn current_tasks_window_boundary_is_inclusive() {
    let now: i64 = 1_000_000_000_000;
    let mut stack = empty_stack();
    stack.push_with("edge".to_string(), None, 1, 100).unwrap();
    stack
        .complete_task_at(1, now - CURRENT_WINDOW_MILLIS)
        .unwrap();
    let current = stack.get_current_tasks_at(now);
    assert_eq!(current.len(), 1);
    assert_eq!(current[0].title, "edge");
    let just_out = stack.get_current_tasks_at(now + 1);
    assert!(just_out.is_empty());
}

#[test]
fn tasks_are_scoped_to_their_list() {
    let mut store = Store::new();
    store
        .create_list_with("One".to_string(), 1, 10)
        .unwrap();
    store
        .create_list_with("Two".to_string(), 2, 11)
        .unwrap();
    let mut stack = TaskStack::new(store, 1);
    stack.push_with("in one".to_string(), None, 100, 50).unwrap();
    stack.set_list_id(2);
    stack.push_with("in two".to_string(), None, 200, 51).unwrap();
    let two = stack.get_tasks();
    assert_eq!(two.len(), 1);
    assert_eq!(two[0].title, "in two");
    stack.set_list_id(1);
    let one = stack.get_tasks();
    assert_eq!(one.len(), 1);
    assert_eq!(one[0].title, "in one");
}

#[test]
fn round_trip_preserves_all_fields() {
    let mut stack = empty_stack();
    stack
        .push_with(
            "Title".to_string(),
            Some("details".to_string()),
            42,
            12345,
        )
        .unwrap();
    let got = stack.find_task(42).unwrap();
    assert_eq!(got.id, 42);
    assert_eq!(got.list_id, LIST);
    assert_eq!(got.title, "Title");
    assert_eq!(got.description.as_deref(), Some("details"));
    assert_eq!(got.created_at, 12345);
    assert_eq!(got.state, TaskState::Active);
    assert_eq!(got.completed_at, None);
    let all = stack.get_tasks();
    assert_eq!(all.len(), 1);
    assert_eq!(all[0].title, "Title");
    assert_eq!(all[0].description.as_deref(), Some("details"));
    assert_eq!(all[0].id, 42);
}

#[test]
fn work_list_scenario() {
    let mut store = Store::new();
    let work = store
        .create_list_with("Work".to_string(), 1, 10)
        .unwrap();
    let mut stack = TaskStack::new(store, work);
    stack
        .push_with("Write report".to_string(), None, 100, 50)
        .unwrap();
    stack
        .push_with("Email client".to_string(), None, 200, 51)
        .unwrap();
    let first = stack.first_active().expect("active task");
    assert_eq!(first.title, "Write report");
    stack.move_to_end(first.id).unwrap();
    let next = stack.first_active().expect("active task");
    assert_eq!(next.title, "Email client");
}

#[test]
fn blank_title_is_rejected() {
    let mut stack = empty_stack();
    assert_eq!(
        stack.push_with("".to_string(), None, 1, 100),
        Err(TaskError::Validation)
    );
    assert_eq!(
        stack.push_with("  \t\n ".to_string(), None, 1, 100),
        Err(TaskError::Validation)
    );
    assert_eq!(stack.size(), 0);
}

#[test]
fn blank_description_is_stored_as_absent() {
    let mut stack = empty_stack();
    stack
        .push_with("t".to_string(), Some("   ".to_string()), 1, 100)
        .unwrap();
    let got = stack.find_task(1).unwrap();
    assert_eq!(got.description, None);
}

#[test]
fn duplicate_task_id_fails_with_store_error() {
    let mut stack = empty_stack();
    stack.push_with("a".to_string(), None, 1, 100).unwrap();
    assert_eq!(
        stack.push_with("b".to_string(), None, 1, 101),
        Err(TaskError::Store)
    );
    assert_eq!(stack.size(), 1);
}

#[test]
fn first_only_policy_rejects_completing_later_task() {
    let mut stack = empty_stack();
    stack.set_completion_policy(CompletionPolicy::FirstOnly);
    stack.push_with("first".to_string(), None, 1, 100).unwrap();
    stack.push_with("second".to_string(), None, 2, 101).unwrap();
    assert_eq!(
        stack.complete_task_at(2, 5000).unwrap_err(),
        TaskError::InvalidTransition
    );
    let done = stack.complete_task_at(1, 5000).unwrap();
    assert_eq!(done.title, "first");
    let done2 = stack.complete_task_at(2, 6000).unwrap();
    assert_eq!(done2.title, "second");
}

#[test]
fn any_policy_completes_by_id_regardless_of_order() {
    let mut stack = empty_stack();
    stack.push_with("first".to_string(), None, 1, 100).unwrap();
    stack.push_with("second".to_string(), None, 2, 101).unwrap();
    let done = stack.complete_task_at(2, 5000).unwrap();
    assert_eq!(done.title, "second");
    let still_first = stack.first_active().unwrap();
    assert_eq!(still_first.title, "first");
}

#[test]
fn empty_list_has_no_first_or_popped_task() {
    let mut stack = empty_stack();
    assert!(stack.first_active().is_none());
    assert!(stack.first().is_none());
    assert!(stack.pop().is_none());
    assert_eq!(stack.size(), 0);
}

#[test]
fn first_returns_most_recent_completion_before_active_tasks() {
    let mut stack = empty_stack();
    stack.push_with("a".to_string(), None, 1, 100).unwrap();
    stack.push_with("b".to_string(), None, 2, 101).unwrap();
    stack.push_with("c".to_string(), None, 3, 102).unwrap();
    stack.complete_task_at(1, 5000).unwrap();
    stack.complete_task_at(2, 9000).unwrap();
    let top = stack.first().expect("non-empty list");
    assert_eq!(top.title, "b");
}

#[test]
fn pop_removes_last_task_of_the_history_view() {
    let mut stack = empty_stack();
    stack.push_with("a".to_string(), None, 1, 100).unwrap();
    stack.push_with("b".to_string(), None, 2, 101).unwrap();
    let popped = stack.pop().expect("non-empty list");
    assert_eq!(popped.title, "b");
    assert_eq!(stack.size(), 1);
    let remaining = stack.first_active().unwrap();
    assert_eq!(remaining.title, "a");
}

#[test]
fn get_tasks_orders_completed_first_by_recency_then_active_by_position() {
    let mut stack = empty_stack();
    stack.push_with("a".to_string(), None, 1, 100).unwrap();
    stack.push_with("b".to_string(), None, 2, 101).unwrap();
    stack.push_with("c".to_string(), None, 3, 102).unwrap();
    stack.push_with("d".to_string(), None, 4, 103).unwrap();
    stack.complete_task_at(1, 5000).unwrap();
    stack.complete_task_at(3, 9000).unwrap();
    let titles: Vec<String> = stack.get_tasks().into_iter().map(|t| t.title).collect();
    assert_eq!(titles, vec!["c", "a", "b", "d"]);
}

#[test]
fn current_tasks_are_ordered_by_position() {
    let mut stack = empty_stack();
    stack.push_with("a".to_string(), None, 1, 100).unwrap();
    stack.push_with("b".to_string(), None, 2, 101).unwrap();
    stack.push_with("c".to_string(), None, 3, 102).unwrap();
    stack.move_to_end(1).unwrap();
    let titles: Vec<String> = stack
        .get_current_tasks_at(1000)
        .into_iter()
        .map(|t| t.title)
        .collect();
    assert_eq!(titles, vec!["b", "c", "a"]);
}

#[test]
fn lists_are_returned_newest_first() {
    let mut store = Store::new();
    store
        .create_list_with("older".to_string(), 1, 10)
        .unwrap();
    store
        .create_list_with("newer".to_string(), 2, 20)
        .unwrap();
    let stack = TaskStack::new(store, 1);
    let lists = stack.get_lists();
    assert_eq!(lists.len(), 2);
    assert_eq!(lists[0].name, "newer");
    assert_eq!(lists[1].name, "older");
}

#[test]
fn create_list_rejects_blank_name_and_duplicate_id() {
    let mut store = Store::new();
    assert_eq!(
        store.create_list_with(" ".to_string(), 1, 10),
        Err(TaskError::Validation)
    );
    store.create_list_with("a".to_string(), 1, 10).unwrap();
    assert_eq!(
        store.create_list_with("b".to_string(), 1, 11),
        Err(TaskError::Store)
    );
}

#[test]
fn create_new_list_generates_usable_id() {
    let mut stack = empty_stack();
    let id = stack.create_new_list("Errands").unwrap();
    let lists = stack.get_lists();
    assert_eq!(lists.len(), 1);
    assert_eq!(lists[0].id, id);
    assert_eq!(lists[0].name, "Errands");
    assert_eq!(
        stack.create_new_list("  "),
        Err(TaskError::Validation)
    );
}

#[test]
fn push_with_wall_clock_and_generated_id_lands_active() {
    let mut stack = empty_stack();
    let before = chrono::Utc::now().timestamp_millis();
    stack
        .push("Generated".to_string(), Some("desc".to_string()))
        .unwrap();
    let after = chrono::Utc::now().timestamp_millis();
    let t = stack.first_active().expect("one active task");
    assert_eq!(t.title, "Generated");
    assert_eq!(t.description.as_deref(), Some("desc"));
    assert!(t.created_at >= before && t.created_at <= after);
    let ulid_time_ms = ulid::Ulid(t.id).timestamp_ms() as i64;
    assert!(ulid_time_ms >= before - 1000 && ulid_time_ms <= after + 1000);
}

#[test]
fn selected_list_pointer_switches_scope() {
    let mut stack = empty_stack();
    assert_eq!(stack.get_list_id(), LIST);
    stack.set_list_id(9);
    assert_eq!(stack.get_list_id(), 9);
    stack.push_with("t".to_string(), None, 1, 100).unwrap();
    assert_eq!(stack.size(), 1);
    stack.set_list_id(LIST);
    assert_eq!(stack.size(), 0);
}

#[test]
fn find_task_position_reports_index_in_history_view() {
    let mut stack = empty_stack();
    stack.push_with("a".to_string(), None, 1, 100).unwrap();
    stack.push_with("b".to_string(), None, 2, 101).unwrap();
    let a = stack.find_task(1).unwrap();
    let b = stack.find_task(2).unwrap();
    assert_eq!(stack.find_task_position(&a), 0);
    assert_eq!(stack.find_task_position(&b), 1);
    let mut missing = a.clone();
    missing.id = 99;
    assert_eq!(stack.find_task_position(&missing), 2);
}

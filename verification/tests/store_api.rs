//! Tests of the store's row-level operations and of the plain data types
//! the presentation layer consumes.

use task_stack::error::TaskError;
use task_stack::store::Store;
use task_stack::tasks::{Task, TaskState};
use task_stack::types::{DomUpdate, PageResponse};

fn active_task(id: u128, list_id: u128, title: &str, created_at: i64) -> Task {
    Task {
        id,
        list_id,
        title: title.to_string(),
        description: None,
        created_at,
        state: TaskState::Active,
        completed_at: None,
    }
}

#[test]
fn insert_and_query_returns_rows_with_positions() {
    let mut store = Store::new();
    store.insert_task(active_task(1, 5, "a", 100), 0).unwrap();
    store.insert_task(active_task(2, 5, "b", 101), 1).unwrap();
    let rows = store.get_all_tasks(5);
    assert_eq!(rows.len(), 2);
    assert_eq!(rows[0].task.title, "a");
    assert_eq!(rows[0].position, 0);
    assert_eq!(rows[1].task.title, "b");
    assert_eq!(rows[1].position, 1);
}

#[test]
fn insert_duplicate_id_fails_and_leaves_store_unchanged() {
    let mut store = Store::new();
    store.insert_task(active_task(1, 5, "a", 100), 0).unwrap();
    assert_eq!(
        store.insert_task(active_task(1, 5, "b", 101), 1),
        Err(TaskError::Store)
    );
    let rows = store.get_all_tasks(5);
    assert_eq!(rows.len(), 1);
    assert_eq!(rows[0].task.title, "a");
}

#[test]
fn update_task_state_rewrites_one_row() {
    let mut store = Store::new();
    store.insert_task(active_task(1, 5, "a", 100), 0).unwrap();
    store.insert_task(active_task(2, 5, "b", 101), 1).unwrap();
    store.update_task_state(1, TaskState::Completed, Some(7777));
    let rows = store.get_all_tasks(5);
    assert_eq!(rows[0].task.id, 1);
    assert_eq!(rows[0].task.state, TaskState::Completed);
    assert_eq!(rows[0].task.completed_at, Some(7777));
    assert_eq!(rows[1].task.id, 2);
    assert_eq!(rows[1].task.state, TaskState::Active);
}

#[test]
fn update_task_position_moves_row_in_active_order() {
    let mut store = Store::new();
    store.insert_task(active_task(1, 5, "a", 100), 0).unwrap();
    store.insert_task(active_task(2, 5, "b", 101), 1).unwrap();
    store.update_task_position(1, 9);
    let rows = store.get_active_tasks(5);
    assert_eq!(rows[0].task.title, "b");
    assert_eq!(rows[1].task.title, "a");
    assert_eq!(rows[1].position, 9);
}

#[test]
fn delete_task_removes_one_row() {
    let mut store = Store::new();
    store.insert_task(active_task(1, 5, "a", 100), 0).unwrap();
    store.insert_task(active_task(2, 5, "b", 101), 1).unwrap();
    store.delete_task(1);
    let rows = store.get_all_tasks(5);
    assert_eq!(rows.len(), 1);
    assert_eq!(rows[0].task.id, 2);
    store.delete_task(99);
    assert_eq!(store.get_all_tasks(5).len(), 1);
}

#[test]
fn get_first_active_task_breaks_position_ties_by_insertion_order() {
    let mut store = Store::new();
    store.insert_task(active_task(1, 5, "first", 100), 3).unwrap();
    store.insert_task(active_task(2, 5, "second", 101), 3).unwrap();
    let t = store.get_first_active_task(5).expect("active task");
    assert_eq!(t.title, "first");
    assert!(store.get_first_active_task(6).is_none());
}

#[test]
fn get_highest_position_is_zero_on_empty_list() {
    let mut store = Store::new();
    assert_eq!(store.get_highest_position(5), 0);
    store.insert_task(active_task(1, 5, "a", 100), 4).unwrap();
    store.insert_task(active_task(2, 5, "b", 101), 2).unwrap();
    assert_eq!(store.get_highest_position(5), 4);
    assert_eq!(store.get_highest_position(6), 0);
}

#[test]
fn get_lists_returns_ids_in_insertion_order() {
    let mut store = Store::new();
    store.create_list_with("a".to_string(), 3, 10).unwrap();
    store.create_list_with("b".to_string(), 1, 11).unwrap();
    assert_eq!(store.get_lists(), vec![3, 1]);
}

#[test]
fn task_constructor_and_accessors() {
    let before = chrono::Utc::now().timestamp_millis();
    let mut t = Task::new("hello".to_string(), 5);
    let after = chrono::Utc::now().timestamp_millis();
    assert_eq!(t.title(), "hello");
    assert_eq!(t.description(), None);
    assert!(!t.completed());
    assert_eq!(t.completed_at(), None);
    assert!(t.created_at() >= before && t.created_at() <= after);
    t.mark_completed_at(999);
    assert!(t.completed());
    assert_eq!(t.completed_at(), Some(999));
    assert_eq!(t.title(), "hello");
}

#[test]
fn mark_completed_uses_wall_clock() {
    let mut t = Task::new("hello".to_string(), 5);
    let before = chrono::Utc::now().timestamp_millis();
    t.mark_completed();
    let after = chrono::Utc::now().timestamp_millis();
    let at = t.completed_at().expect("completion time recorded");
    assert!(at >= before && at <= after);
}

#[test]
fn page_response_wraps_one_update() {
    let update = DomUpdate {
        html: "<p>hi</p>".to_string(),
        target: "#app".to_string(),
        action: "replace".to_string(),
    };
    let page = PageResponse::new(update);
    assert_eq!(page.updates.len(), 1);
    assert_eq!(page.updates[0].html, "<p>hi</p>");
    assert_eq!(page.updates[0].target, "#app");
    assert_eq!(page.updates[0].action, "replace");
    assert!(page.notification.is_none());
}

#[test]
fn page_response_with_notification_carries_message() {
    let update = DomUpdate {
        html: "<p>hi</p>".to_string(),
        target: "#app".to_string(),
        action: "replace".to_string(),
    };
    let page = PageResponse::with_notification(
        update,
        "Task added successfully".to_string(),
        "success",
        Some(3000),
    );
    assert_eq!(page.updates.len(), 1);
    let n = page.notification.expect("notification present");
    assert_eq!(n.message, "Task added successfully");
    assert_eq!(n.notification_type, "success");
    assert_eq!(n.duration, Some(3000));
}

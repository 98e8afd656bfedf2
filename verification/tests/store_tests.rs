use todo::codec::{parse_tasks, serialize_tasks};
use todo::store::{add_task, add_task_now, next_id, remove_task_at, try_add_task};
use todo::task::Task;
use todo::Error;

fn task(id: usize, name: &str) -> Task {
    Task {
        id,
        name: name.to_string(),
        created_at: format!("2023-01-01T00:00:0{id}+00:00"),
        completed_at: None,
    }
}

#[test]
fn next_id_of_empty_store_is_zero() {
    let tasks: Vec<Task> = Vec::new();
    assert_eq!(next_id(&tasks), 0);
}

#[test]
fn next_id_follows_last_task() {
    let tasks = vec![task(3, "a"), task(7, "b")];
    assert_eq!(next_id(&tasks), 8);
}

#[test]
fn add_grows_by_one_and_numbers_from_last() {
    let mut tasks = vec![task(0, "a"), task(1, "b")];
    add_task(&mut tasks, "c".to_string(), "t".to_string());
    assert_eq!(tasks.len(), 3);
    assert_eq!(tasks[2].id, 2);
    assert_eq!(tasks[2].name, "c");
    assert_eq!(tasks[2].created_at, "t");
    assert!(tasks[2].completed_at.is_none());
    assert_eq!(tasks[0].name, "a");
    assert_eq!(tasks[1].name, "b");
}

#[test]
fn add_after_deletion_reuses_successor_of_last() {
    let mut tasks = vec![task(0, "a"), task(1, "b"), task(2, "c")];
    remove_task_at(&mut tasks, 2).unwrap();
    add_task(&mut tasks, "d".to_string(), "t".to_string());
    assert_eq!(tasks[2].id, 2);
}

#[test]
fn add_to_empty_store_starts_at_zero() {
    let mut tasks: Vec<Task> = Vec::new();
    add_task(&mut tasks, "buy milk".to_string(), "t".to_string());
    assert_eq!(tasks.len(), 1);
    assert_eq!(tasks[0].id, 0);
    assert_eq!(tasks[0].name, "buy milk");
    assert!(tasks[0].completed_at.is_none());
}

#[test]
fn empty_store_then_add_then_reload() {
    let mut tasks = parse_tasks(&"[]".chars().collect()).unwrap();
    add_task(&mut tasks, "buy milk".to_string(), "t".to_string());
    let reloaded = parse_tasks(&serialize_tasks(&tasks)).unwrap();
    assert_eq!(reloaded.len(), 1);
    assert_eq!(reloaded[0].id, 0);
    assert_eq!(reloaded[0].name, "buy milk");
    assert!(reloaded[0].completed_at.is_none());
}

#[test]
fn try_add_refuses_exhausted_ids() {
    let mut tasks = vec![task(usize::MAX, "last")];
    assert!(!try_add_task(&mut tasks, "x".to_string(), "t".to_string()));
    assert_eq!(tasks.len(), 1);
    let mut ok = vec![task(5, "a")];
    assert!(try_add_task(&mut ok, "x".to_string(), "t".to_string()));
    assert_eq!(ok.len(), 2);
    assert_eq!(ok[1].id, 6);
}

#[test]
fn add_task_now_stamps_a_time() {
    let mut tasks: Vec<Task> = Vec::new();
    assert!(add_task_now(&mut tasks, "stamped".to_string()));
    assert_eq!(tasks.len(), 1);
    assert_eq!(tasks[0].id, 0);
    assert_eq!(tasks[0].name, "stamped");
    assert!(!tasks[0].created_at.is_empty());
    assert!(tasks[0].completed_at.is_none());
}

#[test]
fn remove_shrinks_by_one_and_keeps_order() {
    let mut tasks = vec![task(0, "a"), task(1, "b"), task(2, "c"), task(3, "d")];
    remove_task_at(&mut tasks, 1).unwrap();
    assert_eq!(tasks.len(), 3);
    let names: Vec<&str> = tasks.iter().map(|t| t.name.as_str()).collect();
    assert_eq!(names, ["a", "c", "d"]);
    let ids: Vec<usize> = tasks.iter().map(|t| t.id).collect();
    assert_eq!(ids, [0, 2, 3]);
}

#[test]
fn remove_first_and_last() {
    let mut tasks = vec![task(0, "a"), task(1, "b"), task(2, "c")];
    remove_task_at(&mut tasks, 0).unwrap();
    let ids: Vec<usize> = tasks.iter().map(|t| t.id).collect();
    assert_eq!(ids, [1, 2]);
    remove_task_at(&mut tasks, 1).unwrap();
    let ids: Vec<usize> = tasks.iter().map(|t| t.id).collect();
    assert_eq!(ids, [1]);
}

#[test]
fn remove_out_of_range_is_an_error() {
    let mut tasks = vec![task(0, "a")];
    assert_eq!(remove_task_at(&mut tasks, 1).unwrap_err(), Error::IndexOutOfRange);
    assert_eq!(tasks.len(), 1);
    let mut empty: Vec<Task> = Vec::new();
    assert_eq!(remove_task_at(&mut empty, 0).unwrap_err(), Error::IndexOutOfRange);
}

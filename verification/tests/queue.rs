use std::collections::VecDeque;

use task_loop::add_task;
use task_loop::agents::create_tasks;
use task_loop::agents::reprioritize;
use task_loop::task::admit_new_tasks;
use task_loop::Task;

fn queue_of(entries: &[(u64, &str)]) -> VecDeque<Task> {
    let mut q = VecDeque::new();
    for (id, name) in entries {
        q.push_back(Task { task_id: *id, task_name: name.to_string() });
    }
    q
}

fn queue_names(q: &VecDeque<Task>) -> Vec<String> {
    q.iter().map(|t| t.task_name.clone()).collect()
}

#[test]
fn add_task_appends_at_back() {
    let mut q = queue_of(&[(1, "first")]);
    add_task(Task { task_id: 2, task_name: "second".to_string() }, &mut q);
    assert_eq!(q.len(), 2);
    assert_eq!(q[1].task_id, 2);
    assert_eq!(q[1].task_name, "second");
}

#[test]
fn create_tasks_from_enumerated_reply() {
    let tasks = create_tasks("1. Write outline\n2. Draft section one");
    assert_eq!(tasks.len(), 2);
    assert_eq!(tasks[0].task_id, 0);
    assert_eq!(tasks[0].task_name, "Write outline");
    assert_eq!(tasks[1].task_id, 0);
    assert_eq!(tasks[1].task_name, "Draft section one");
}

#[test]
fn create_tasks_keeps_malformed_line_as_empty_name() {
    let tasks = create_tasks("1. Real task\nno dot on this line");
    assert_eq!(tasks.len(), 2);
    assert_eq!(tasks[0].task_name, "Real task");
    assert_eq!(tasks[1].task_name, "");
    assert_eq!(tasks[1].task_id, 0);
}

#[test]
fn admit_new_tasks_numbers_from_counter() {
    let mut q = queue_of(&[(1, "seed")]);
    let mut counter: u64 = 1;
    let new_tasks = vec![
        Task { task_id: 0, task_name: "a".to_string() },
        Task { task_id: 0, task_name: "b".to_string() },
    ];
    admit_new_tasks(new_tasks, &mut q, &mut counter);
    assert_eq!(counter, 3);
    assert_eq!(q.len(), 3);
    assert_eq!(q[1].task_id, 2);
    assert_eq!(q[1].task_name, "a");
    assert_eq!(q[2].task_id, 3);
    assert_eq!(q[2].task_name, "b");
}

#[test]
fn reprioritize_assigns_fresh_sequential_ids() {
    let mut q = queue_of(&[(4, "one"), (5, "two")]);
    reprioritize(&mut q, "1. two\n2. one");
    let ids: Vec<u64> = q.iter().map(|t| t.task_id).collect();
    assert_eq!(ids, vec![6, 7]);
    assert_eq!(queue_names(&q), vec!["two".to_string(), "one".to_string()]);
}

#[test]
fn reprioritize_on_empty_queue_starts_at_one() {
    let mut q: VecDeque<Task> = VecDeque::new();
    reprioritize(&mut q, "1. only");
    assert_eq!(q.len(), 1);
    assert_eq!(q[0].task_id, 1);
    assert_eq!(q[0].task_name, "only");
}

#[test]
fn reprioritize_preserves_name_multiset() {
    let mut q = queue_of(&[(1, "alpha"), (2, "beta"), (3, "gamma")]);
    let mut before = queue_names(&q);
    reprioritize(&mut q, "1. gamma\n2. alpha\n3. beta");
    let mut after = queue_names(&q);
    before.sort();
    after.sort();
    assert_eq!(before, after);
}

#[test]
fn reprioritize_drops_lines_without_a_dot() {
    let mut q = queue_of(&[(7, "keep")]);
    reprioritize(&mut q, "noise without dot\n1. keep");
    assert_eq!(q.len(), 1);
    assert_eq!(q[0].task_id, 8);
    assert_eq!(q[0].task_name, "keep");
}

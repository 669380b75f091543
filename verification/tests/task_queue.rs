use rl_core::defs::ReactionDefinitionId;
use rl_core::task::{Task, TaskKind};
use rl_core::task_queue::TaskQueue;

fn task(priority: u8, kind: TaskKind, reaction: usize) -> Task {
    Task::new(priority, kind, ReactionDefinitionId(reaction))
}

#[test]
fn insert_then_get() {
    let mut q = TaskQueue::new();
    assert!(q.is_empty());
    let h = q.insert(task(5, TaskKind::mining(), 1));
    assert_eq!(q.len(), 1);
    assert_eq!(q.get(h).unwrap().priority, 5);
    assert!(q.is_available(h));
    assert_eq!(q.iter_all().len(), 1);
}

#[test]
fn take_cancel_complete() {
    let mut q = TaskQueue::new();
    let h = q.insert(task(5, TaskKind::mining(), 1));
    let t = q.take(h).unwrap();
    assert_eq!(t.reaction, ReactionDefinitionId(1));
    assert!(!q.is_available(h));
    assert!(q.take(h).is_none());
    assert_eq!(q.top(TaskKind::mining()), None);
    assert!(q.cancel(h));
    assert!(q.is_available(h));
    assert_eq!(q.top(TaskKind::mining()), Some(h));
    assert!(q.take(h).is_some());
    assert!(q.complete(h));
    assert!(q.get(h).is_none());
    assert!(!q.complete(h));
    assert!(!q.cancel(h));
    assert!(q.is_empty());
}

#[test]
fn top_is_highest_priority() {
    let mut q = TaskQueue::new();
    let low = q.insert(task(1, TaskKind::mining(), 1));
    let high = q.insert(task(9, TaskKind::mining(), 2));
    let other = q.insert(task(50, TaskKind::cleaning(), 3));
    assert_eq!(q.top(TaskKind::mining()), Some(high));
    assert_eq!(q.top(TaskKind::cleaning()), Some(other));
    assert_eq!(q.top(TaskKind::woodcutting()), None);
    let entries = q.iter_available(TaskKind::mining()).unwrap();
    assert_eq!(entries.len(), 2);
    assert_eq!(entries[0].handle, low);
    assert_eq!(entries[1].handle, high);
    assert!(q.iter_available(TaskKind::woodcutting()).is_none());
    let any = q.top_any().unwrap();
    assert!(any == high || any == other);
}

#[test]
fn completing_an_available_task_leaves_its_entry() {
    let mut q = TaskQueue::new();
    let h = q.insert(task(3, TaskKind::mining(), 1));
    assert!(!q.complete(h));
    assert!(q.get(h).is_none());
    // The entry stays available though the task is gone.
    assert_eq!(q.top(TaskKind::mining()), Some(h));
    assert!(q.take(h).is_none());
}

#[test]
fn from_tasks_makes_all_available() {
    let q = TaskQueue::from_tasks(vec![task(1, TaskKind::mining(), 1), task(2, TaskKind::mining(), 2)]);
    assert_eq!(q.len(), 2);
    assert_eq!(q.iter_available(TaskKind::mining()).unwrap().len(), 2);
    let top = q.top_any().unwrap();
    assert_eq!(q.get(top).unwrap().priority, 2);
}

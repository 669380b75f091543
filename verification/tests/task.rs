use rl_core::defs::ReactionDefinitionId;
use rl_core::task::{Task, TaskKind, TaskPrioritiesComponent};

#[test]
fn task_priorities_storage() {
    let mut p = TaskPrioritiesComponent::default();

    p.set(TaskKind::mining(), 55);
    p.set(TaskKind::cleaning(), 123);
    p.set(TaskKind::woodcutting(), 222);

    assert_eq!(55, p.get(TaskKind::mining()));
    assert_eq!(123, p.get(TaskKind::cleaning()));
    assert_eq!(222, p.get(TaskKind::woodcutting()));

    for task in p.iter() {
        println!("itered: {:?}", task);
    }
}

#[test]
fn priorities_sorted_lowest_first() {
    let mut p = TaskPrioritiesComponent::default();
    p.set(TaskKind::mining(), 10);
    p.set(TaskKind::cleaning(), 200);
    p.set(TaskKind::woodcutting(), 50);
    let s = p.sorted();
    assert_eq!(s.len(), 3);
    assert_eq!(s[0], (TaskKind::mining(), 10));
    assert_eq!(s[1], (TaskKind::woodcutting(), 50));
    assert_eq!(s[2], (TaskKind::cleaning(), 200));
}

#[test]
fn bit_index_round_trip() {
    for i in 0..32usize {
        let bit = TaskPrioritiesComponent::set_bit(i as u32);
        assert_eq!(TaskPrioritiesComponent::get_bit_index(bit), Some(i));
    }
    assert_eq!(TaskPrioritiesComponent::get_bit_index(0), None);
}

#[test]
fn new_task_ids_are_version_4_uuids() {
    for _ in 0..8 {
        let t = Task::new(3, TaskKind::mining(), ReactionDefinitionId(0));
        assert_eq!((t.id >> 76) & 0xf, 4);
        assert_eq!((t.id >> 62) & 0x3, 2);
    }
}

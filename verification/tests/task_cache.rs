use rl_core::components::{Entity, PositionComponent};
use rl_core::defs::reaction::Reagent;
use rl_core::defs::ReactionDefinitionId;
use rl_core::map::TileMap;
use rl_core::math::Vec3i;
use rl_core::task::{Task, TaskKind, TaskPrioritiesComponent};
use rl_core::task_cache::{nearest_first, FindBestTaskError, HasTasksComponent, TaskCache};
use rl_core::task_queue::TaskQueue;
use rl_core::tile::Tile;

fn floor_map() -> TileMap {
    let mut t = Tile::default();
    t.make_floor();
    TileMap::with_default(Vec3i::new(4, 4, 2), t)
}

fn offer(tasks: Vec<Task>) -> HasTasksComponent {
    let mut q = TaskQueue::new();
    for t in tasks {
        q.insert(t);
    }
    HasTasksComponent { storage: q }
}

fn mining(priority: u8, reaction: usize) -> Task {
    Task::new(priority, TaskKind::mining(), ReactionDefinitionId(reaction))
}

#[test]
fn nearest_first_sorts_by_distance() {
    let points = vec![Vec3i::new(3, 3, 0), Vec3i::new(1, 0, 0), Vec3i::new(0, 2, 0)];
    let r = nearest_first(&points, Vec3i::new(0, 0, 0));
    assert_eq!(r, vec![Vec3i::new(1, 0, 0), Vec3i::new(0, 2, 0), Vec3i::new(3, 3, 0)]);
}

#[test]
fn update_skips_empty_queues_and_counts_tasks() {
    let mut cache = TaskCache::default();
    cache.update(&vec![
        (Entity(1), offer(vec![mining(3, 1), mining(1, 2)]), PositionComponent::new(Vec3i::new(1, 1, 0))),
        (Entity(2), offer(vec![]), PositionComponent::new(Vec3i::new(2, 2, 0))),
    ]);
    assert_eq!(cache.tree, vec![Vec3i::new(1, 1, 0)]);
    assert_eq!(cache.tasks.len(), 1);
    assert_eq!(cache.len(), 2);
    assert!(!cache.is_empty());
    assert_eq!(cache.lookup(Vec3i::new(1, 1, 0)), Some(0));
    assert_eq!(cache.lookup(Vec3i::new(2, 2, 0)), None);
    assert!(offer(vec![]).is_empty());
    assert_eq!(offer(vec![mining(1, 1)]).len(), 1);
}

#[test]
fn find_best_takes_the_lowest_priority_task_of_the_nearest_location() {
    let map = floor_map();
    let mut cache = TaskCache::default();
    cache.update(&vec![
        (Entity(1), offer(vec![mining(9, 1)]), PositionComponent::new(Vec3i::new(3, 3, 0))),
        (Entity(2), offer(vec![mining(4, 2), mining(2, 3)]), PositionComponent::new(Vec3i::new(1, 1, 0))),
    ]);
    let priorities = TaskPrioritiesComponent::default();
    let (dst, entry, handle) = cache
        .find_best(Vec3i::new(0, 0, 0), &priorities, &map, &|_r: ReactionDefinitionId| -> Result<(), Reagent> { Ok(()) })
        .unwrap();
    assert_eq!(dst, Vec3i::new(0, 1, 0));
    assert_eq!(entry.entity, Entity(2));
    assert_eq!(entry.queue.get(handle).unwrap().reaction, ReactionDefinitionId(3));
}

#[test]
fn find_best_skips_reactions_that_cannot_start() {
    let map = floor_map();
    let mut cache = TaskCache::default();
    cache.update(&vec![
        (Entity(1), offer(vec![mining(9, 1)]), PositionComponent::new(Vec3i::new(3, 3, 0))),
        (Entity(2), offer(vec![mining(2, 3)]), PositionComponent::new(Vec3i::new(1, 1, 0))),
    ]);
    let priorities = TaskPrioritiesComponent::default();
    let only_first = |r: ReactionDefinitionId| -> Result<(), Reagent> {
        if r == ReactionDefinitionId(1) {
            Ok(())
        } else {
            Err(Reagent::default())
        }
    };
    let (_, entry, _) = cache.find_best(Vec3i::new(0, 0, 0), &priorities, &map, &only_first).unwrap();
    assert_eq!(entry.entity, Entity(1));
}

#[test]
fn find_best_reports_why_nothing_was_found() {
    let map = floor_map();
    let priorities = TaskPrioritiesComponent::default();
    let empty = TaskCache::default();
    let always = |_r: ReactionDefinitionId| -> Result<(), Reagent> { Ok(()) };
    assert_eq!(empty.find_best(Vec3i::new(0, 0, 0), &priorities, &map, &always).err(), Some(FindBestTaskError::Empty));

    let mut cache = TaskCache::default();
    cache.update(&vec![(Entity(2), offer(vec![mining(2, 3)]), PositionComponent::new(Vec3i::new(1, 1, 0)))]);
    let mut reagent = Reagent::default();
    reagent.count = 2;
    let missing = reagent.clone();
    let refuse = move |_r: ReactionDefinitionId| -> Result<(), Reagent> { Err(missing.clone()) };
    assert_eq!(
        cache.find_best(Vec3i::new(0, 0, 0), &priorities, &map, &refuse).err(),
        Some(FindBestTaskError::MissingReagent(reagent))
    );
}

use rl_core::components::{
    CarryComponent, Destroy, DimensionsComponent, Entity, EntityMeta, ItemContainerComponent,
    MovementError, MovementRequest, NameComponent, NeedState, NeedsComponent, PartGraphId,
    PositionComponent, TimeStamp,
};
use rl_core::data::{CollisionKind, DimensionsVec};
use rl_core::data::bt::{DropParameters, MoveParameters, PickupParameters, Target};
use rl_core::defs::needs::NeedKind;
use rl_core::math::{Vec3i, Vec3u};
use rl_core::small::Limbs2;

#[test]
fn destroy_defaults_to_next_frame() {
    assert_eq!(Destroy::default().delay, 1);
}

#[test]
fn entity_meta_keeps_creation_time() {
    let m = EntityMeta::new(TimeStamp(42));
    assert_eq!(*m.created(), TimeStamp(42));
}

#[test]
fn movement_requests_compare_by_destination() {
    let a = MovementRequest::new(Vec3i::new(0, 0, 0), Vec3i::new(5, 5, 1));
    let b = MovementRequest::with_distance(Vec3i::new(9, 9, 0), Vec3i::new(5, 5, 1), 3);
    let c = MovementRequest::new(Vec3i::new(0, 0, 0), Vec3i::new(5, 6, 1));
    assert!(a == b);
    assert!(a != c);
    assert_eq!(a.distance, None);
    assert_eq!(b.distance, Some(3));
    assert_eq!(b.started_at, Vec3i::new(9, 9, 0));
    assert_eq!(MovementError::NoPath.message(), "No path to target");
}

#[test]
fn name_component_copies_name() {
    assert_eq!(NameComponent::new("Urist").name, "Urist");
}

#[test]
fn container_default_is_unbounded_and_empty() {
    let c = ItemContainerComponent::default();
    assert_eq!(c.capacity, DimensionsVec::new(u32::MAX, u32::MAX, u32::MAX));
    assert_eq!(c.consumed, DimensionsVec::new(0, 0, 0));
    assert_eq!(c.inside.len(), 0);
    assert_eq!(c.queued_inside.len(), 0);
}

#[test]
fn container_push_queues_and_remove_takes_all_copies() {
    let mut c = ItemContainerComponent::default();
    c.push(Entity(7));
    assert_eq!(c.queued_inside.len(), 1);
    assert_eq!(c.inside.len(), 0);
    c.inside.push(Entity(1));
    c.inside.push(Entity(2));
    c.inside.push(Entity(1));
    assert!(c.remove(Entity(1)));
    assert_eq!(c.inside.len(), 1);
    assert_eq!(c.inside.get(0), Entity(2));
    assert!(!c.remove(Entity(1)));
    assert_eq!(c.inside_items(), vec![Entity(2)]);
}

fn carrier(items: &[Option<Entity>]) -> CarryComponent {
    let mut limbs = Limbs2::new();
    for (i, item) in items.iter().enumerate() {
        limbs.push((PartGraphId(i as u32), *item));
    }
    CarryComponent { limbs }
}

#[test]
fn carry_iter_lists_held_items_in_limb_order() {
    let c = carrier(&[None, Some(Entity(3)), Some(Entity(4))]);
    assert_eq!(c.iter(), vec![Entity(3), Entity(4)]);
}

#[test]
fn carry_remove_empties_first_holding_limb() {
    let mut c = carrier(&[Some(Entity(3)), Some(Entity(3))]);
    assert!(c.remove(Entity(3)));
    assert_eq!(c.limbs.get(0), (PartGraphId(0), None));
    assert_eq!(c.limbs.get(1), (PartGraphId(1), Some(Entity(3))));
    assert!(c.remove(Entity(3)));
    assert!(!c.remove(Entity(3)));
}

#[test]
fn dimensions_constructors() {
    let d = DimensionsComponent::with_tiles(Vec3i::new(2, 3, 1));
    assert_eq!(d.current, DimensionsVec::new(2000, 3000, 1000));
    assert_eq!(d.min, d.max);
    assert_eq!(d.collision(), CollisionKind::Clear);
    let s = DimensionsComponent::with_collision(DimensionsVec::new(500, 500, 500), CollisionKind::Solid);
    assert_eq!(s.collision(), CollisionKind::Solid);
    let m = DimensionsComponent::with_minmax(
        DimensionsVec::new(1, 1, 1),
        DimensionsVec::new(2500, 1000, 1999),
        DimensionsVec::new(9000, 9000, 9000),
    );
    assert_eq!(m.current, DimensionsVec::new(2500, 1000, 1999));
    assert_eq!(m.as_tiles(), Vec3i::new(2, 1, 1));
    assert_eq!(DimensionsComponent::default().as_tiles(), Vec3i::new(1, 1, 1));
    assert_eq!(DimensionsComponent::new(DimensionsVec::new(999, 0, 0)).as_tiles(), Vec3i::new(0, 0, 0));
}

#[test]
fn dimensions_boxes() {
    let d = DimensionsComponent::with_tiles(Vec3i::new(2, 3, 4));
    let a = d.aabb();
    assert_eq!(a.min, Vec3i::new(0, 0, 0));
    assert_eq!(a.max, Vec3i::new(2, 3, 4));
    let l = d.occupies_limit_z(Vec3i::new(10, 10, 5));
    assert_eq!(l.min, Vec3i::new(10, 10, 5));
    assert_eq!(l.max, Vec3i::new(12, 13, 6));
    let o = d.occupies(Vec3i::new(10, 10, 5));
    assert_eq!(o.min, Vec3i::new(12, 13, 1));
    assert_eq!(o.max, Vec3i::new(10, 10, 5));
}

#[test]
fn position_from_coordinate() {
    let p: PositionComponent = Vec3i::new(1, 2, 3).into();
    assert_eq!(p, PositionComponent::new(Vec3i::new(1, 2, 3)));
}

#[test]
fn needs_add_and_sub_keep_value_on_overflow() {
    let mut n = NeedsComponent::default();
    n.add(NeedKind::Calories, 10);
    n.sub(NeedKind::Hydration, 4);
    assert_eq!(n.get(NeedKind::Calories).value, 10);
    assert_eq!(n.get(NeedKind::Hydration).value, -4);
    assert_eq!(n.get(NeedKind::Sleep).value, 0);
    n.add(NeedKind::Calories, i32::MAX);
    assert_eq!(n.get(NeedKind::Calories).value, 10);
    n.sub(NeedKind::Calories, 10);
    assert_eq!(n.get(NeedKind::Calories).value, 0);
}

#[test]
fn need_decay_step_clamps() {
    let mut s = NeedState::default();
    s.decay_step(-1, (i16::MIN as i32, i16::MAX as i32));
    assert_eq!(s.value, -1);
    let mut low = NeedState { value: -32768 };
    low.decay_step(-1, (-32768, 32767));
    assert_eq!(low.value, -32768);
    let mut high = NeedState { value: 32767 };
    high.decay_step(5, (-32768, 32767));
    assert_eq!(high.value, 32767);
    let mut over = NeedState { value: i32::MIN };
    over.decay_step(-1, (-10, 10));
    assert_eq!(over.value, 10);
}

#[test]
fn vec3u_new_holds_components() {
    assert_eq!(Vec3u::new(1, 2, 3).z, 3);
}

#[test]
fn needs_get_mut_changes_one_need() {
    let mut n = NeedsComponent::default();
    n.get_mut(NeedKind::Hydration).value = 12;
    assert_eq!(n.get(NeedKind::Hydration).value, 12);
    assert_eq!(n.get(NeedKind::Calories).value, 0);
}

#[test]
fn behavior_parameters() {
    let d = DropParameters::new(Entity(3));
    assert_eq!(d.item, Entity(3));
    assert!(d.target.is_none());
    let d = DropParameters::with_target(Entity(3), Target::Tile(Vec3i::new(1, 2, 3)));
    assert_eq!(d.target, Some(Target::Tile(Vec3i::new(1, 2, 3))));
    let p = PickupParameters::new(Entity(4));
    assert_eq!(p.target, Entity(4));
    assert!(p.destination.is_none());
    let m = MoveParameters::new_entity(Entity(5));
    assert_eq!(m.target, Target::Entity(Entity(5)));
    assert!(m.active_request.is_none());
    assert_eq!(MoveParameters::new_tile(Vec3i::new(0, 1, 2)).target, Target::Tile(Vec3i::new(0, 1, 2)));
    assert_eq!(DimensionsVec::from(Vec3u::new(1, 2, 3)), DimensionsVec::new(1, 2, 3));
}

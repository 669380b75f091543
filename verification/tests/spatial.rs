use rl_core::components::{DimensionsComponent, Entity, PositionComponent};
use rl_core::data::CollisionKind;
use rl_core::math::Vec3i;
use rl_core::spatial::SpatialMapEntry;

#[test]
fn entry_reaches_down_from_its_position() {
    let dims = DimensionsComponent::with_tiles(Vec3i::new(2, 2, 10));
    let e = SpatialMapEntry::new(Entity(1), &PositionComponent::new(Vec3i::new(5, 5, 15)), &dims);
    let r = e.aabb();
    assert_eq!(r.min, Vec3i::new(5, 5, 6));
    assert_eq!(r.max, Vec3i::new(6, 6, 15));
    assert_eq!(e.position(), Vec3i::new(5, 5, 6));
    assert_eq!(e.dimensions(), Vec3i::new(2, 2, 10));
    assert_eq!(e.collision(), dims.collision());
    assert!(e.contains_point(&PositionComponent::new(Vec3i::new(6, 5, 10))));
    assert!(!e.contains_point(&PositionComponent::new(Vec3i::new(7, 5, 10))));
    assert_eq!(e.distance_2(&PositionComponent::new(Vec3i::new(6, 5, 10))), 0);
    assert_eq!(e.distance_2(&PositionComponent::new(Vec3i::new(8, 3, 16))), 4 + 4 + 1);
}

#[test]
fn single_entries_compare_by_entity_and_box() {
    let a = SpatialMapEntry::new_single(Entity(2), Vec3i::new(1, 2, 3), CollisionKind::Solid);
    let b = SpatialMapEntry::new_single(Entity(2), Vec3i::new(1, 2, 3), CollisionKind::Clear);
    let c = SpatialMapEntry::new_single(Entity(3), Vec3i::new(1, 2, 3), CollisionKind::Solid);
    assert!(a == b);
    assert!(a != c);
    assert_eq!(a.rectangle().min, a.rectangle().max);
    assert_eq!(a.dimensions(), Vec3i::new(1, 1, 1));
    let w = SpatialMapEntry::with_rect(Entity(4), a.rectangle(), CollisionKind::Solid);
    assert_eq!(w.entity, Entity(4));
}

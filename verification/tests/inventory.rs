use rl_core::components::{CarryComponent, Entity, ItemContainerComponent, PartGraphId};
use rl_core::data::DimensionsVec;
use rl_core::defs::item::{
    ItemComponent, ItemDefinition, ItemKind, ItemProperties, ItemStatusComponent,
};
use rl_core::defs::needs::ProvidesNutrition;
use rl_core::defs::{DefinitionDetails, ItemDefinitionId};
use rl_core::inventory::{
    can_contain_item, carry_has_item, compare_volumes, container_has_item,
    container_has_item_recursive, find_item_recursive, for_all_items_recursive, pickup_destination, ItemWorld,
};
use rl_core::data::bt::PickupDestination;
use rl_core::small::Limbs2;
use std::cmp::Ordering;

fn item_def(dimensions: DimensionsVec) -> ItemDefinition {
    ItemDefinition {
        details: DefinitionDetails::new("rock"),
        id: ItemDefinitionId(0),
        material_limits: Vec::new(),
        abilities: Vec::new(),
        properties: ItemProperties::empty(),
        kind: ItemKind::default(),
        base_status: ItemStatusComponent::default(),
        extensions: Vec::new(),
        dimensions,
        weight: ItemDefinition::default_weight(),
        nutrition: ProvidesNutrition::default(),
    }
}

#[test]
fn compare_volumes_never_answers_equal() {
    let a = DimensionsVec::new(1, 2, 3);
    assert_eq!(compare_volumes(a, a), Ordering::Greater);
    assert_eq!(compare_volumes(DimensionsVec::new(4, 1, 1), a), Ordering::Greater);
    assert_eq!(compare_volumes(DimensionsVec::new(0, 2, 3), a), Ordering::Less);
    assert_eq!(compare_volumes(DimensionsVec::new(0, 0, 9), a), Ordering::Greater);
}

#[test]
fn can_contain_item_answers_true_when_it_would_not_fit() {
    let mut c = ItemContainerComponent::default();
    c.capacity = DimensionsVec::new(1000, 1000, 1000);
    c.consumed = DimensionsVec::new(0, 0, 0);
    assert!(!can_contain_item(&c, &item_def(DimensionsVec::new(500, 500, 500))));
    assert!(can_contain_item(&c, &item_def(DimensionsVec::new(1000, 1000, 1000))));
    assert!(can_contain_item(&c, &item_def(DimensionsVec::new(1001, 1, 1))));
}

fn carrier(items: &[Option<Entity>]) -> CarryComponent {
    let mut limbs = Limbs2::new();
    for (i, item) in items.iter().enumerate() {
        limbs.push((PartGraphId(i as u32), *item));
    }
    CarryComponent { limbs }
}

fn container(items: &[u64]) -> ItemContainerComponent {
    let mut c = ItemContainerComponent::default();
    for i in items {
        c.inside.push(Entity(*i));
    }
    c
}

#[test]
fn has_item_checks() {
    let k = carrier(&[None, Some(Entity(5))]);
    assert!(carry_has_item(&k, Entity(5)));
    assert!(!carry_has_item(&k, Entity(6)));
    let c = container(&[1, 2, 3]);
    assert!(container_has_item(&c, Entity(2)));
    assert!(!container_has_item(&c, Entity(4)));
}

fn world() -> ItemWorld {
    // Entity 1 carries 10 and holds a container with 11 and 12; entity 12
    // is a bag holding 20.
    let mut w = ItemWorld::new();
    assert!(w.add_carrier(Entity(1), carrier(&[Some(Entity(10)), None])));
    assert!(w.add_container(Entity(1), container(&[11, 12])));
    assert!(w.add_container(Entity(12), container(&[20])));
    for e in [10u64, 11, 12, 20] {
        assert!(w.add_item(Entity(e), ItemComponent { def: ItemDefinitionId(e as usize) }));
    }
    assert!(!w.add_item(Entity(10), ItemComponent { def: ItemDefinitionId(0) }));
    w
}

#[test]
fn recursive_container_check_looks_one_level_down() {
    let w = world();
    let c = w.container(Entity(1)).unwrap();
    assert!(container_has_item_recursive(&w, c, Entity(11)));
    assert!(container_has_item_recursive(&w, c, Entity(20)));
    assert!(!container_has_item_recursive(&w, c, Entity(10)));
}

#[test]
fn remove_item_from_container_and_carrier() {
    let mut w = world();
    // Held one level down: found, but only direct contents are removed.
    assert!(!w.remove_item(Entity(1), Entity(20)));
    assert!(w.remove_item(Entity(1), Entity(11)));
    assert!(!container_has_item(w.container(Entity(1)).unwrap(), Entity(11)));
    assert!(w.remove_item(Entity(1), Entity(10)));
    assert!(!carry_has_item(w.carrier(Entity(1)).unwrap(), Entity(10)));
    assert!(!w.remove_item(Entity(1), Entity(99)));
}

#[test]
fn find_item_walks_carried_then_contained() {
    let w = world();
    let found = find_item_recursive(Entity(1), &w, |_s: Entity, (_e, item): (Entity, &ItemComponent)| item.def.0 == 10);
    assert_eq!(found, Some((Entity(1), Entity(10))));
    let found = find_item_recursive(Entity(1), &w, |_s: Entity, (e, _item): (Entity, &ItemComponent)| e == Entity(11));
    assert_eq!(found, Some((Entity(1), Entity(11))));
    let mut plain = ItemWorld::new();
    plain.add_container(Entity(2), container(&[30, 31]));
    plain.add_item(Entity(30), ItemComponent { def: ItemDefinitionId(3) });
    plain.add_item(Entity(31), ItemComponent { def: ItemDefinitionId(4) });
    let none = find_item_recursive(Entity(2), &plain, |_s: Entity, (_e, _i): (Entity, &ItemComponent)| false);
    assert_eq!(none, None);
}

#[test]
fn visiting_all_items_lists_them_in_order() {
    let mut w = ItemWorld::new();
    w.add_carrier(Entity(1), carrier(&[Some(Entity(10))]));
    w.add_container(Entity(1), container(&[11, 12]));
    w.add_item(Entity(10), ItemComponent { def: ItemDefinitionId(1) });
    w.add_item(Entity(12), ItemComponent { def: ItemDefinitionId(2) });
    let visits = for_all_items_recursive(Entity(1), &w);
    assert_eq!(
        visits,
        vec![
            (Entity(1), (Entity(10), ItemComponent { def: ItemDefinitionId(1) })),
            (Entity(1), (Entity(12), ItemComponent { def: ItemDefinitionId(2) })),
        ]
    );
}

fn hands(left: Option<Entity>, right: Option<Entity>) -> CarryComponent {
    let mut limbs = Limbs2::new();
    limbs.push((PartGraphId(1), left));
    limbs.push((PartGraphId(2), right));
    CarryComponent { limbs }
}

#[test]
fn pickup_prefers_a_free_hand_then_the_bag() {
    let rock = item_def(DimensionsVec::new(1, 1, 1));
    let me = Entity(7);
    let full = hands(Some(Entity(1)), Some(Entity(2)));
    let one_free = hands(Some(Entity(1)), None);
    let mut bag = ItemContainerComponent::default();
    bag.capacity = DimensionsVec::new(1, 1, 1);
    assert_eq!(
        pickup_destination(me, &rock, false, None, Some(&one_free), Some(&bag)),
        Some(PickupDestination::Carry(PartGraphId(2)))
    );
    // The bag is chosen when adding the item would fill or exceed it.
    assert_eq!(
        pickup_destination(me, &rock, false, Some(me), Some(&full), Some(&bag)),
        Some(PickupDestination::Container(me))
    );
    bag.capacity = DimensionsVec::new(5, 5, 5);
    assert_eq!(pickup_destination(me, &rock, false, None, Some(&full), Some(&bag)), None);
    assert_eq!(pickup_destination(me, &rock, true, None, Some(&one_free), None), None);
    assert_eq!(pickup_destination(me, &rock, false, Some(Entity(8)), Some(&one_free), None), None);
    assert_eq!(pickup_destination(me, &rock, false, None, None, None), None);
}

#[test]
fn hold_fills_the_named_limb() {
    let mut c = hands(None, None);
    assert_eq!(c.first_free(), Some(PartGraphId(1)));
    c.hold(PartGraphId(1), Entity(3));
    assert_eq!(c.first_free(), Some(PartGraphId(2)));
    c.hold(PartGraphId(2), Entity(4));
    assert_eq!(c.first_free(), None);
    assert_eq!(c.iter(), vec![Entity(3), Entity(4)]);
}

use rl_core::data::DimensionsVec;
use rl_core::defs::condition::{
    check_foliage_value, check_item_value, check_tile_value, foliage_nutrition, get_nutrition_value, item_nutrition, Item,
    Material as ConditionMaterial, Nutrition as ConditionNutrition, Operator, Tile as ConditionTile,
};
use rl_core::tile::TileKind;
use rl_core::defs::foliage::{FoliageComponent, FoliageDefinition, FoliageDefinitionId, FoliageKind};
use rl_core::defs::item::{
    ItemAbility, ItemAbilityKind, ItemComponent, ItemDefinition, ItemExtension, ItemExtensionKind,
    ItemKind, ItemKinds, ItemProperties, ItemProperty, ItemStatusComponent, StockpileComponent,
};
use rl_core::math::Vec3i;
use rl_core::defs::material::{
    MaterialComponent, MaterialDefinition, MaterialKind, MaterialLimit, MaterialState,
    MaterialStateDefinition, OrganicSubKind, RockSubKind,
};
use rl_core::defs::needs::{nutrition_for, provided_nutrition, NeedKind, Nutrition, ProvidesNutrition};
use rl_core::defs::race::Attributes;
use rl_core::defs::{
    DefinitionDetails, DefinitionStorage, ItemDefinitionId, MaterialDefinitionId,
};
use rl_core::data::CollisionKind;
use std::ops::Range;

#[test]
fn definition_details_new() {
    let d = DefinitionDetails::new("Granite");
    assert_eq!(d.name(), "Granite");
    assert_eq!(d.display_name(), "Granite");
    assert_eq!(d.description(), "");
    assert_eq!(d.long_description(), "");
}

fn nutrition(c: (i32, i32), h: (i32, i32)) -> Nutrition {
    Nutrition { calories: Range { start: c.0, end: c.1 }, hydration: Range { start: h.0, end: h.1 } }
}

fn state_def(n: Nutrition) -> MaterialStateDefinition {
    MaterialStateDefinition {
        details: DefinitionDetails::new("state"),
        density: 1, hardness: 2, porosity: 0, permeability: 0, elasticity: 0,
        tensile_strength: 0, tensile_yield: 0, compressive_yield_strength: 0,
        fatigue_strength: 0, fracture_toughness: 0, flexural_strength: 0, shear_modulus: 0,
        poisson_ratio: 0, impact_toughness: 0, electric_resistance: 0,
        specific_heat_capacity: 0, thermal_conductivity: 0, abrasive_hardness: 0,
        nutrition: n,
    }
}

fn material(name: &str, states: Vec<(MaterialState, MaterialStateDefinition)>) -> MaterialDefinition {
    MaterialDefinition {
        details: DefinitionDetails::new(name),
        id: MaterialDefinitionId(99),
        inherits: None,
        category: MaterialKind::Organic(OrganicSubKind::Flesh),
        states,
        melt_point: None,
        boil_point: None,
        ignite_point: None,
        freeze_point: None,
    }
}

fn item(name: &str, nutrition: ProvidesNutrition) -> ItemDefinition {
    ItemDefinition {
        details: DefinitionDetails::new(name),
        id: ItemDefinitionId(99),
        material_limits: vec![MaterialLimit::default()],
        abilities: vec![ItemAbility::new(ItemAbilityKind::Chopping, 40)],
        properties: ItemProperties::empty(),
        kind: ItemKind::Food,
        base_status: ItemStatusComponent::default(),
        extensions: vec![ItemExtension::Container { capacity: DimensionsVec::new(1, 1, 1) }],
        dimensions: DimensionsVec::default(),
        weight: 5,
        nutrition,
    }
}

#[test]
fn storage_gives_ids_and_finds_by_lower_case_name() {
    let mut s = DefinitionStorage::new();
    assert!(s.is_empty());
    s.insert(material("Granite", vec![]));
    s.insert(material("Apple", vec![]));
    assert_eq!(s.len(), 2);
    assert_eq!(s.get(1).unwrap().id, MaterialDefinitionId(1));
    assert_eq!(s.get(0).unwrap().details.name(), "Granite");
    assert!(s.get(2).is_none());
    assert_eq!(s.get_id("GRANITE"), Some(0));
    assert_eq!(s.get_id("apple"), Some(1));
    assert_eq!(s.get_id("pear"), None);
    assert_eq!(s.find("Apple").unwrap().details.name(), "Apple");
    assert!(s.has_key("granite"));
    assert!(!s.has_key("Granite"));
    assert!(s.has_id(2));
    assert!(!s.has_id(3));
    s.insert(material("granite", vec![]));
    assert_eq!(s.get_id("Granite"), Some(2));
    assert_eq!(s.get_by_name("GRANITE").unwrap().id, MaterialDefinitionId(2));
    assert_eq!(s.iter().len(), 3);
    let mut keys = s.keys();
    keys.sort();
    assert_eq!(keys, vec!["apple".to_string(), "granite".to_string()]);
}

#[test]
fn find_after_insert_gives_the_new_definition() {
    let mut s = DefinitionStorage::new();
    s.insert(material("Oak", vec![]));
    s.insert(material("OAK", vec![]));
    assert_eq!(s.find("oak").unwrap().id, MaterialDefinitionId(1));
}

#[test]
fn material_component_fetches_its_state() {
    let mut s = DefinitionStorage::new();
    s.insert(material(
        "apple",
        vec![
            (MaterialState::Solid, state_def(nutrition((5, 10), (0, 0)))),
            (MaterialState::Liquid, state_def(nutrition((0, 0), (3, 4)))),
        ],
    ));
    let m = MaterialComponent::new(MaterialDefinitionId(0), MaterialState::Liquid);
    assert_eq!(m.fetch_state(&s).nutrition.hydration, Range { start: 3, end: 4 });
    assert_eq!(m.state(), MaterialState::Liquid);
    assert_eq!(m.id(), MaterialDefinitionId(0));
    assert_eq!(MaterialComponent::default().state(), MaterialState::Solid);
}

#[test]
fn nutrition_ranges_need_a_positive_start() {
    let n = nutrition((5, 10), (0, 3));
    assert_eq!(nutrition_for(NeedKind::Calories, &n), Some(Range { start: 5, end: 10 }));
    assert_eq!(nutrition_for(NeedKind::Hydration, &n), None);
    assert_eq!(provided_nutrition(NeedKind::Calories, &ProvidesNutrition::FromMaterial, None), None);
    assert_eq!(
        provided_nutrition(NeedKind::Calories, &ProvidesNutrition::FromMaterial, Some(&n)),
        Some(Range { start: 5, end: 10 })
    );
    assert_eq!(Nutrition::default().calories, Range { start: 0, end: 0 });
    assert_eq!(NeedKind::Sleep.as_usize(), 2);
}

#[test]
fn item_and_foliage_nutrition() {
    let mut materials = DefinitionStorage::new();
    materials.insert(material("apple", vec![(MaterialState::Solid, state_def(nutrition((7, 9), (1, 2))))]));
    let mut items = DefinitionStorage::new();
    items.insert(item("apple", ProvidesNutrition::FromMaterial));
    items.insert(item("water", ProvidesNutrition::Value(nutrition((0, 0), (4, 8)))));
    let m = MaterialComponent::new(MaterialDefinitionId(0), MaterialState::Solid);
    let apple = ItemComponent { def: ItemDefinitionId(0) };
    let water = ItemComponent { def: ItemDefinitionId(1) };
    assert_eq!(item_nutrition(NeedKind::Calories, apple, Some(&m), &items, &materials), Some(Range { start: 7, end: 9 }));
    assert_eq!(item_nutrition(NeedKind::Calories, apple, None, &items, &materials), None);
    assert_eq!(item_nutrition(NeedKind::Hydration, water, None, &items, &materials), Some(Range { start: 4, end: 8 }));
    assert_eq!(item_nutrition(NeedKind::Calories, water, Some(&m), &items, &materials), None);
    let mut foliages = DefinitionStorage::new();
    foliages.insert(FoliageDefinition {
        details: DefinitionDetails::new("bush"),
        id: FoliageDefinitionId(9),
        kind: FoliageKind::Bush,
        collision: CollisionKind::Clear,
        material: MaterialDefinitionId(0),
        nutrition: ProvidesNutrition::FromMaterial,
        dimensions: DimensionsVec::default(),
    });
    let bush = FoliageComponent { def: FoliageDefinitionId(0) };
    assert_eq!(foliage_nutrition(NeedKind::Hydration, bush, Some(&m), &materials, &foliages), Some(Range { start: 1, end: 2 }));

    // The value of an entity is not filtered, and a plant gets nothing from its material.
    assert_eq!(
        get_nutrition_value(NeedKind::Calories, Some(water), None, None, &items, &materials, &foliages),
        Some(Range { start: 0, end: 0 })
    );
    assert_eq!(
        get_nutrition_value(NeedKind::Calories, Some(apple), Some(bush), Some(&m), &items, &materials, &foliages),
        Some(Range { start: 7, end: 9 })
    );
    assert_eq!(get_nutrition_value(NeedKind::Calories, Some(apple), None, None, &items, &materials, &foliages), None);
    assert_eq!(get_nutrition_value(NeedKind::Hydration, None, Some(bush), Some(&m), &items, &materials, &foliages), None);
    assert_eq!(get_nutrition_value(NeedKind::Hydration, None, None, None, &items, &materials, &foliages), None);
}

#[test]
fn item_definition_lookups() {
    let d = item("axe", ProvidesNutrition::default());
    assert!(d.has_extension(ItemExtensionKind::Container));
    assert_eq!(
        d.get_extension(ItemExtensionKind::Container),
        Some(&ItemExtension::Container { capacity: DimensionsVec::new(1, 1, 1) })
    );
    assert!(d.has_ability(ItemAbilityKind::Chopping));
    assert!(!d.has_ability(ItemAbilityKind::Digging));
    assert_eq!(ItemDefinition::default_weight(), 10);
    assert!(ItemAbility::new(ItemAbilityKind::Chopping, 1) == ItemAbility::from(ItemAbilityKind::Chopping));
}

#[test]
fn item_properties_set() {
    let mut p = ItemProperties::empty();
    assert!(!p.contains(ItemProperty::IsEdible));
    p.insert(ItemProperty::IsEdible);
    assert!(p.contains(ItemProperty::IsEdible));
    assert!(!p.contains(ItemProperty::IsFlammable));
    assert_eq!(p.bits, 0x8000_0000);
}

#[test]
fn attribute_defaults() {
    assert_eq!(Attributes::default().strength, 1000);
    assert_eq!(Attributes::default_deviation().social, 200);
    let r = Attributes::default_with_deviation();
    assert_eq!(r.base, Attributes::default());
    assert_eq!(r.deviation, Attributes::default_deviation());
}

#[test]
fn material_defaults() {
    assert_eq!(MaterialLimit::default(), MaterialLimit::Any(MaterialState::Solid));
    assert_eq!(MaterialKind::default(), MaterialKind::Todo);
    assert_eq!(RockSubKind::default(), RockSubKind::Any);
    assert_eq!(OrganicSubKind::default(), OrganicSubKind::Any);
    assert_eq!(ItemStatusComponent::default(), ItemStatusComponent::default());
}

#[test]
fn item_kind_sets_and_stockpiles() {
    let mut kinds = ItemKinds::empty();
    assert!(!kinds.contains(ItemKind::Wood));
    kinds.insert(ItemKind::Wood);
    kinds.insert(ItemKind::Other);
    assert!(kinds.contains(ItemKind::Wood));
    assert!(kinds.contains(ItemKind::Other));
    assert!(!kinds.contains(ItemKind::Stone));
    assert_eq!(kinds.bits, 0x1000_0001);
    let s = StockpileComponent::new(kinds, vec![Vec3i::new(1, 1, 0), Vec3i::new(2, 1, 0)]);
    assert_eq!(s.tiles.free_len(), 2);
    assert_eq!(s.tiles.consumed_len(), 0);
    assert!(s.contains.is_empty());
    assert!(s.children_tiles.is_empty());
    assert_eq!(s.stores, kinds);
}

#[test]
fn item_foliage_and_tile_conditions_by_value() {
    let mut materials = DefinitionStorage::new();
    materials.insert(material("apple", vec![(MaterialState::Solid, state_def(nutrition((7, 9), (0, 0))))]));
    let mut items = DefinitionStorage::new();
    items.insert(item("Axe", ProvidesNutrition::Value(nutrition((0, 0), (0, 0)))));
    items.insert(item("apple", ProvidesNutrition::FromMaterial));
    let axe = ItemComponent { def: ItemDefinitionId(0) };
    let apple = ItemComponent { def: ItemDefinitionId(1) };
    let m = MaterialComponent::new(MaterialDefinitionId(0), MaterialState::Solid);
    let yes = Operator::True;
    let no = Operator::False;
    assert!(check_item_value(yes, &Item::Ability(ItemAbilityKind::Chopping), axe, None, &items, &materials));
    assert!(!check_item_value(yes, &Item::Ability(ItemAbilityKind::Digging), axe, None, &items, &materials));
    assert!(check_item_value(no, &Item::Ability(ItemAbilityKind::Digging), axe, None, &items, &materials));
    assert!(check_item_value(yes, &Item::Name("Axe".to_string()), axe, None, &items, &materials));
    assert!(!check_item_value(yes, &Item::Name("axe".to_string()), axe, None, &items, &materials));
    assert!(!check_item_value(yes, &Item::Property(ItemProperty::IsFlammable), axe, None, &items, &materials));
    assert!(check_item_value(no, &Item::Property(ItemProperty::IsFlammable), axe, None, &items, &materials));
    let limit = ConditionMaterial { op: Operator::True, limit: MaterialLimit::default() };
    assert!(!check_item_value(no, &Item::Material(limit.clone()), axe, None, &items, &materials));
    assert!(!check_item_value(yes, &Item::Material(limit), axe, None, &items, &materials));
    let calories = Item::Nutrition(ConditionNutrition::Kind(Some(NeedKind::Calories)));
    assert!(!check_item_value(yes, &calories, axe, None, &items, &materials));
    assert!(check_item_value(yes, &calories, apple, Some(&m), &items, &materials));
    let any = Item::Nutrition(ConditionNutrition::Kind(None));
    assert!(check_item_value(yes, &any, apple, Some(&m), &items, &materials));

    assert!(check_tile_value(yes, &ConditionTile::Kind(TileKind::Floor), TileKind::Floor));
    assert!(!check_tile_value(no, &ConditionTile::Kind(TileKind::Floor), TileKind::Floor));
    assert!(check_foliage_value(yes, FoliageKind::Tree, Some(FoliageKind::Tree)));
    assert!(!check_foliage_value(yes, FoliageKind::Tree, None));
    assert!(check_foliage_value(no, FoliageKind::Tree, Some(FoliageKind::Bush)));
}

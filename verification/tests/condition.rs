use rl_core::components::Entity;
use rl_core::defs::condition::first_nourishing;
use rl_core::defs::condition::{
    check, check_set, operator_holds, to_ron_case, Condition, ConditionRight, ConditionSet, Item,
    Operator, Property, Subject, Tile, Value,
};
use rl_core::defs::foliage::FoliageKind;
use rl_core::defs::item::{ItemAbilityKind, ItemProperty};
use rl_core::defs::material::{MaterialKind, MaterialLimit, MaterialState, RockSubKind};
use rl_core::defs::parser::{to_condition_set, ConditionParseError, ConditionSetRef};
use rl_core::defs::reaction::Reagent;
use rl_core::tile::TileKind;

fn limits(t: &str) -> Option<MaterialLimit> {
    match t {
        "Any(Solid)" => Some(MaterialLimit::Any(MaterialState::Solid)),
        "Kind(Rock(Igneous))" => Some(MaterialLimit::Kind(MaterialKind::Rock(RockSubKind::Igneous))),
        _ => None,
    }
}

fn parse(s: &str) -> Result<ConditionSet, ConditionParseError> {
    to_condition_set(s, &limits)
}

#[test]
fn ron_case_capitalizes_names() {
    assert_eq!(to_ron_case("any(solid)"), "Any(Solid)");
    assert_eq!(to_ron_case("kind(rock(igneous))"), "Kind(Rock(Igneous))");
    assert_eq!(to_ron_case(""), "");
    assert_eq!(to_ron_case("ab)cd"), "Ab)Cd");
}

#[test]
fn operators_stand_for_truth() {
    assert!(operator_holds(Operator::True));
    assert!(!operator_holds(Operator::False));
}

#[test]
fn condition_parse_test() {
    println!("{:?}", parse("self has property test").unwrap());
    println!("{:?}", parse("self has item property is_flammable").unwrap());
    println!("{:?}", parse("self has item ability digging").unwrap());
    println!("{:?}", parse("self has item material is Any(Solid)").unwrap());
    println!("{:?}", parse("self has item material is any(solid)").unwrap());
    println!(
        "{:?}",
        parse("self has item property is_flammable & self has item property is_flammable").unwrap()
    );
    println!(
        "{:?}",
        parse(
            "self has item property is_flammable & (self has item property is_flammable | self has item property is_flammable)"
        )
        .unwrap()
    );
    println!(
        "{:?}",
        parse(
            "(self has item property is_flammable & (self has item property is_flammable | self has item property is_flammable) )"
        )
        .unwrap()
    );
}

#[test]
fn parsed_conditions_have_their_parts() {
    let s = parse("target !has item ability chopping").unwrap();
    assert_eq!(s.left.subject, Subject::Target);
    assert_eq!(s.left.op, Operator::False);
    assert!(matches!(s.left.value, Value::Item(Item::Ability(ItemAbilityKind::Chopping))));
    assert!(s.right.is_none());

    let s = parse("is tile kind floor").unwrap();
    assert_eq!(s.left.subject, Subject::Me);
    assert!(matches!(s.left.value, Value::Tile(Tile::Kind(TileKind::Floor))));

    let s = parse("self is foliage tree").unwrap();
    assert!(matches!(s.left.value, Value::Foliage(FoliageKind::Tree)));

    let s = parse("self has item material is kind(rock(igneous))").unwrap();
    match s.left.value {
        Value::Item(Item::Material(m)) => {
            assert_eq!(m.limit, MaterialLimit::Kind(MaterialKind::Rock(RockSubKind::Igneous)))
        }
        _ => panic!("expected a material condition"),
    }

    let s = parse("self has item property is_edible | self has item shovel").unwrap();
    let right = s.right.unwrap();
    assert_eq!(right.op, Operator::Or);
    assert!(matches!(right.set.left.value, Value::Item(Item::Name(ref n)) if n == "shovel"));
}

#[test]
fn unknown_words_fall_back_or_fail() {
    // An unknown property makes the `property` alternative fail; the bare
    // name alternative then reads `property` as a name, and the rest is left over.
    assert_eq!(
        parse("self has item property shiny").unwrap_err(),
        ConditionParseError::TrailingInput(22)
    );
    assert_eq!(parse("nobody has item x").unwrap_err(), ConditionParseError::NoStatement);
    assert_eq!(parse("").unwrap_err(), ConditionParseError::NoStatement);
    // A material limit the reader does not know fails the material alternative.
    assert!(parse("self has item material is any(lava)").is_err());
    let s = parse("self has item name_x").unwrap();
    assert!(matches!(s.left.value, Value::Item(Item::Name(ref n)) if n == "_x"));
}

fn cond(subject: Subject, name: &str) -> Condition {
    Condition { subject, op: Operator::True, value: Value::Item(Item::Name(name.to_string())) }
}

fn chain(first: Condition, rest: Option<(Operator, ConditionSet)>) -> ConditionSet {
    ConditionSet {
        left: first,
        right: rest.map(|(op, set)| ConditionRight { op, set: Box::new(set) }),
    }
}

fn holds(c: &Condition) -> bool {
    match &c.value {
        Value::Item(Item::Name(n)) => n.starts_with("yes"),
        _ => false,
    }
}

#[test]
fn check_set_joins_with_and_or() {
    let and_ok = chain(cond(Subject::Target, "yes1"), Some((Operator::And, chain(cond(Subject::Target, "yes2"), None))));
    assert!(check_set(&and_ok, &holds, false).is_ok());
    let and_fail = chain(cond(Subject::Target, "yes1"), Some((Operator::And, chain(cond(Subject::Target, "no2"), None))));
    let err = check_set(&and_fail, &holds, false).unwrap_err();
    assert!(matches!(&err.value, Value::Item(Item::Name(n)) if n == "no2"));
    // With `|`, a failing first condition is reported even when the rest passes.
    let or_rest = chain(cond(Subject::Target, "no1"), Some((Operator::Or, chain(cond(Subject::Target, "yes2"), None))));
    let err = check_set(&or_rest, &holds, false).unwrap_err();
    assert!(matches!(&err.value, Value::Item(Item::Name(n)) if n == "no1"));
    let or_first = chain(cond(Subject::Target, "yes1"), Some((Operator::Or, chain(cond(Subject::Target, "no2"), None))));
    assert!(check_set(&or_first, &holds, false).is_ok());
    // Conditions about the subject itself pass when skipped.
    let me = chain(cond(Subject::Me, "no"), None);
    assert!(check_set(&me, &holds, true).is_ok());
    assert!(check_set(&me, &holds, false).is_err());
}

#[test]
fn check_stops_at_first_failing_chain() {
    let sets = vec![
        chain(cond(Subject::Target, "yes"), None),
        chain(cond(Subject::Target, "no-a"), None),
        chain(cond(Subject::Target, "no-b"), None),
    ];
    let err = check(&sets, &holds, false).unwrap_err();
    assert!(matches!(&err.value, Value::Item(Item::Name(n)) if n == "no-a"));
    assert!(check(&sets[0..1], &holds, false).is_ok());
    let _ = Property::Test;
    let _ = ItemProperty::IsEdible;
}

#[test]
fn condition_set_ref_parses_its_text() {
    let mut r = ConditionSetRef::new("self has item property is_flammable");
    assert!(r.condition().is_none());
    assert_eq!(r.parse(&limits), Ok(()));
    let set = r.condition().unwrap();
    assert!(set.right.is_none());
    assert_eq!(r.as_str(), "self has item property is_flammable");
    assert!(r == ConditionSetRef::new("self has item property is_flammable"));
    assert!(r != ConditionSetRef::new("self has property test"));

    let mut bad = ConditionSetRef::new("self has");
    assert!(bad.parse(&limits).is_err());
    assert!(bad.condition().is_none());
}

#[test]
fn reagents_compare_by_their_condition_texts() {
    let mut a = Reagent::default();
    assert_eq!(a.count, 0);
    assert!(a.conditions.is_empty());
    a.conditions.push(ConditionSetRef::new("self has item ability digging"));
    let b = a.clone();
    assert_eq!(a, b);
}

#[test]
fn first_nourishing_skips_worthless_items() {
    let found = vec![
        (Entity(1), None),
        (Entity(2), Some(0..10)),
        (Entity(3), Some(5..10)),
        (Entity(4), Some(7..9)),
    ];
    assert_eq!(first_nourishing(&found), Some(Entity(3)));
    assert_eq!(first_nourishing(&vec![(Entity(1), Some(-3..4))]), None);
}

//! Conditions on the subject or target of an action, and how a chain of
//! them joined by `&` and `|` is checked.
use vstd::prelude::*;
use crate::defs::foliage::FoliageKind;
use crate::defs::item::{ItemAbilityKind, ItemProperty};
use crate::defs::material::MaterialLimit;
use crate::defs::needs::{NeedKind, ProvidesNutrition, nutrition_for, spec_nutrition_for};
use crate::defs::DefinitionStorage;
use crate::defs::foliage::{FoliageComponent, FoliageDefinition};
use crate::defs::item::{ItemComponent, ItemDefinition};
use crate::defs::material::{MaterialComponent, MaterialDefinition, has_state, state_index};
use std::ops::Range;
use crate::tile::TileKind;
use crate::defs::Definition;

verus! {

/// Whom a condition is about.
#[derive(Debug, Copy, Clone, PartialEq, Eq, Hash, Structural)]
pub enum Subject {
    Me,
    Target,
    Any,
}

/// Whether a condition must hold or must not, or how two sets join.
#[derive(Debug, Copy, Clone, PartialEq, Eq, Hash, Structural)]
pub enum Operator {
    True,
    False,
    And,
    Or,
}

/// What `True` and `False` stand for.
pub fn operator_holds(op: Operator) -> (r: bool)
    requires
        op == Operator::True || op == Operator::False,
    ensures
        r == (op == Operator::True),
{
    match op {
        Operator::True => true,
        _ => false,
    }
}

/// A property of the world.
#[derive(Debug, Copy, Clone, PartialEq, Eq, Hash, Structural)]
pub enum Property {
    Test,
}

/// A condition on the material of an item.
#[derive(Debug, Clone, Copy, PartialEq, Eq, Hash, Structural)]
pub struct Material {
    pub op: Operator,
    pub limit: MaterialLimit,
}

/// A condition on what an item feeds.
#[derive(Debug, Clone, Copy, PartialEq, Eq, Hash, Structural)]
pub enum Nutrition {
    Kind(Option<NeedKind>),
}

/// A condition on an item.
#[derive(Debug, Clone)]
pub enum Item {
    Name(String),
    Property(ItemProperty),
    Ability(ItemAbilityKind),
    Material(Material),
    Nutrition(Nutrition),
}

/// A condition on a tile.
#[derive(Debug, Clone, Copy, PartialEq, Eq, Hash, Structural)]
pub enum Tile {
    Kind(TileKind),
}

/// What a condition looks at.
#[derive(Debug, Clone)]
pub enum Value {
    Property(Property),
    Item(Item),
    Tile(Tile),
    Foliage(FoliageKind),
}

/// A condition: a subject, whether the value must hold, and the value.
#[derive(Debug, Clone)]
pub struct Condition {
    pub subject: Subject,
    pub op: Operator,
    pub value: Value,
}

/// The rest of a chain: how it joins and what follows.
#[derive(Debug)]
pub struct ConditionRight {
    pub op: Operator,
    pub set: Box<ConditionSet>,
}

/// A chain of conditions: the first, then how the rest joins it.
#[derive(Debug)]
pub struct ConditionSet {
    pub left: Condition,
    pub right: Option<ConditionRight>,
}

impl Clone for ConditionSet {
    fn clone(&self) -> (r: Self)
        decreases self,
    {
        let right = match &self.right {
            Some(rest) => Some(ConditionRight { op: rest.op, set: Box::new((*rest.set).clone()) }),
            None => None,
        };
        ConditionSet { left: self.left.clone(), right }
    }
}

/// Whether a condition passes, by `holds`, or is skipped for being about
/// the subject itself.
pub open spec fn condition_passes(c: Condition, holds: spec_fn(Condition) -> bool, skip_self: bool) -> bool {
    (skip_self && c.subject == Subject::Me) || holds(c)
}

/// The outcome of checking a chain: `None` when it passes, or the
/// condition that is reported as failing. With `&` the rest is checked
/// only when the first passes; with `|` the rest is checked only when the
/// first fails, and then the first is reported unless the rest fails too.
pub open spec fn spec_check_set(set: ConditionSet, holds: spec_fn(Condition) -> bool, skip_self: bool) -> Option<Condition>
    decreases set,
{
    let left_ok = condition_passes(set.left, holds, skip_self);
    match set.right {
        None => if left_ok { None } else { Some(set.left) },
        Some(right) => {
            if right.op == Operator::And {
                if left_ok {
                    spec_check_set(*right.set, holds, skip_self)
                } else {
                    Some(set.left)
                }
            } else {
                if left_ok {
                    None
                } else {
                    match spec_check_set(*right.set, holds, skip_self) {
                        Some(c) => Some(c),
                        None => Some(set.left),
                    }
                }
            }
        },
    }
}

/// Whether checking the chain only ever meets `&` and `|` where it joins.
pub open spec fn joins_valid(set: ConditionSet, holds: spec_fn(Condition) -> bool, skip_self: bool) -> bool
    decreases set,
{
    match set.right {
        None => true,
        Some(right) => {
            &&& (right.op == Operator::And || right.op == Operator::Or)
            &&& {
                let left_ok = condition_passes(set.left, holds, skip_self);
                let goes_on = if right.op == Operator::And { left_ok } else { !left_ok };
                goes_on ==> joins_valid(*right.set, holds, skip_self)
            }
        },
    }
}

/// Checks one condition: it passes when skipped for being about the
/// subject itself, or when `test` says it holds.
pub fn check_condition<'s, F: Fn(&Condition) -> bool>(condition: &'s Condition, test: &F, skip_self: bool) -> (r: Result<(), &'s Condition>)
    requires
        forall|c: &Condition| #[trigger] test.requires((c,)),
        forall|c: &Condition, a: bool, b: bool| test.ensures((c,), a) && test.ensures((c,), b) ==> a == b,
    ensures
        match r {
            Ok(()) => condition_passes(*condition, |c: Condition| test.ensures((&c,), true), skip_self),
            Err(c) => *c == *condition && !condition_passes(*condition, |c: Condition| test.ensures((&c,), true), skip_self),
        },
{
    if skip_self && condition.subject == Subject::Me {
        return Ok(());
    }
    let holds = test(condition);
    if holds {
        Ok(())
    } else {
        Err(condition)
    }
}

/// Checks a chain of conditions, each by `test`.
pub fn check_set<'s, F: Fn(&Condition) -> bool>(set: &'s ConditionSet, test: &F, skip_self: bool) -> (r: Result<(), &'s Condition>)
    requires
        forall|c: &Condition| #[trigger] test.requires((c,)),
        forall|c: &Condition, a: bool, b: bool| test.ensures((c,), a) && test.ensures((c,), b) ==> a == b,
        joins_valid(*set, |c: Condition| test.ensures((&c,), true), skip_self),
    ensures
        match spec_check_set(*set, |c: Condition| test.ensures((&c,), true), skip_self) {
            None => r is Ok,
            Some(c) => r matches Err(x) && *x == c,
        },
    decreases *set,
{
    let left_res = check_condition(&set.left, test, skip_self);
    match &set.right {
        None => left_res,
        Some(right) => {
            match right.op {
                Operator::And => {
                    if left_res.is_ok() {
                        check_set(&right.set, test, skip_self)
                    } else {
                        left_res
                    }
                },
                _ => {
                    if left_res.is_err() {
                        match check_set(&right.set, test, skip_self) {
                            Err(c) => Err(c),
                            Ok(()) => left_res,
                        }
                    } else {
                        left_res
                    }
                },
            }
        },
    }
}

/// Whether every chain of `sets` passes, checked in order.
pub open spec fn spec_check_all(sets: Seq<ConditionSet>, holds: spec_fn(Condition) -> bool, skip_self: bool) -> Option<Condition>
    decreases sets.len(),
{
    if sets.len() == 0 {
        None
    } else {
        match spec_check_set(sets[0], holds, skip_self) {
            Some(c) => Some(c),
            None => spec_check_all(sets.drop_first(), holds, skip_self),
        }
    }
}

/// Checks the chains of `sets` in order; the first that fails reports.
pub fn check<'s, F: Fn(&Condition) -> bool>(sets: &'s [ConditionSet], test: &F, skip_self: bool) -> (r: Result<(), &'s Condition>)
    requires
        forall|c: &Condition| #[trigger] test.requires((c,)),
        forall|c: &Condition, a: bool, b: bool| test.ensures((c,), a) && test.ensures((c,), b) ==> a == b,
        forall|i: int| 0 <= i < sets@.len() ==> joins_valid(#[trigger] sets@[i], |c: Condition| test.ensures((&c,), true), skip_self),
    ensures
        match spec_check_all(sets@, |c: Condition| test.ensures((&c,), true), skip_self) {
            None => r is Ok,
            Some(c) => r matches Err(x) && *x == c,
        },
{
    let ghost holds = |c: Condition| test.ensures((&c,), true);
    let mut i: usize = 0;
    proof {
        assert(sets@.subrange(0, sets@.len() as int) == sets@);
    }
    while i < sets.len()
        invariant
            i <= sets@.len(),
            forall|c: &Condition| #[trigger] test.requires((c,)),
            forall|c: &Condition, a: bool, b: bool| test.ensures((c,), a) && test.ensures((c,), b) ==> a == b,
            forall|k: int| 0 <= k < sets@.len() ==> joins_valid(#[trigger] sets@[k], holds, skip_self),
            holds == (|c: Condition| test.ensures((&c,), true)),
            spec_check_all(sets@, holds, skip_self) == spec_check_all(sets@.subrange(i as int, sets@.len() as int), holds, skip_self),
        decreases sets@.len() - i,
    {
        let res = check_set(&sets[i], test, skip_self);
        proof {
            let rest = sets@.subrange(i as int, sets@.len() as int);
            assert(rest[0] == sets@[i as int]);
            assert(rest.drop_first() == sets@.subrange(i + 1, sets@.len() as int));
        }
        match res {
            Err(c) => {
                return Err(c);
            },
            Ok(()) => {},
        }
        i = i + 1;
    }
    proof {
        assert(sets@.subrange(i as int, sets@.len() as int).len() == 0);
    }
    Ok(())
}

/// The upper case form of a character, as `char::to_uppercase` gives it.
pub uninterp spec fn uppercased(c: char) -> Seq<char>;

/// `char::to_uppercase` of std, collected into a string: the character by
/// the Unicode uppercase mapping, which may be several characters. The
/// contract names the result and says no more.
#[verifier::external_body]
fn to_uppercase(c: char) -> (r: String)
    ensures
        r@ == uppercased(c),
{
    c.to_uppercase().to_string()
}

/// `String::push` of std: appends one character.
#[verifier::external_body]
pub(crate) fn push_char(s: &mut String, c: char)
    ensures
        final(s)@ == old(s)@.push(c),
{
    s.push(c)
}

/// Whether the character at `i` of `s` starts a name: the first one, and
/// each one right after a parenthesis.
pub open spec fn starts_name(s: Seq<char>, i: int) -> bool {
    i == 0 || s[i - 1] == '(' || s[i - 1] == ')'
}

/// `s` with each character that starts a name in upper case.
pub open spec fn ron_case(s: Seq<char>) -> Seq<char>
    decreases s.len(),
{
    if s.len() == 0 {
        Seq::empty()
    } else {
        let i = s.len() - 1;
        ron_case(s.drop_last()) + if starts_name(s, i) { uppercased(s[i]) } else { seq![s[i]] }
    }
}

/// Writes `value` with the first character, and each one right after a
/// parenthesis, in upper case: `any(solid)` becomes `Any(Solid)`.
pub fn to_ron_case(value: &str) -> (r: String)
    ensures
        r@ == ron_case(value@),
{
    let mut res = String::new();
    let mut cap_state = true;
    let ghost mut seen: Seq<char> = Seq::empty();
    for c in it: value.chars()
        invariant
            seen == value@.subrange(0, it.index() as int),
            res@ == ron_case(seen),
            cap_state == (seen.len() == 0 || seen.last() == '(' || seen.last() == ')'),
            it.seq() == value@,
    {
        let ghost cap_before = cap_state;
        proof {
            let next = value@.subrange(0, it.index() + 1);
            assert(next.drop_last() == seen);
            assert(next[it.index() as int] == c);
        }
        if cap_state {
            let up = to_uppercase(c);
            res.append(up.as_str());
            cap_state = false;
        } else {
            push_char(&mut res, c);
        }
        if c == '(' || c == ')' {
            cap_state = true;
        }
        proof {
            let next = seen.push(c);
            assert(next.drop_last() == seen);
            assert(starts_name(next, seen.len() as int) == cap_before);
            assert(ron_case(next) == ron_case(seen) + if cap_before { uppercased(c) } else { seq![c] });
            seen = next;
        }
    }
    proof {
        assert(seen == value@);
    }
    res
}

/// `r` is the range `s` describes, or both are absent.
pub open spec fn range_is(r: Option<Range<i32>>, s: Option<(i32, i32)>) -> bool {
    match r {
        Some(range) => s == Some((range.start, range.end)),
        None => s is None,
    }
}

/// The material, if given, is defined and has a definition for its state.
pub open spec fn material_known(material: Option<&MaterialComponent>, materials: &DefinitionStorage<MaterialDefinition>) -> bool {
    match material {
        Some(m) => m.spec_def().0 < materials.defs().len() && has_state(
            materials.defs()[m.spec_def().0 as int].states@,
            m.spec_state(),
        ),
        None => true,
    }
}

/// What a food provides for `kind`, by its own value or by its material.
pub open spec fn food_nutrition(
    kind: NeedKind,
    provides: ProvidesNutrition,
    material: Option<&MaterialComponent>,
    materials: &DefinitionStorage<MaterialDefinition>,
    r: Option<Range<i32>>,
) -> bool {
    match provides {
        ProvidesNutrition::Value(v) => range_is(r, spec_nutrition_for(kind, v)),
        ProvidesNutrition::FromMaterial => match material {
            None => r is None,
            Some(m) => exists|i: int|
                state_index(materials.defs()[m.spec_def().0 as int].states@, m.spec_state(), i) && range_is(
                    r,
                    spec_nutrition_for(kind, materials.defs()[m.spec_def().0 as int].states@[i].1.nutrition),
                ),
        },
    }
}

/// What a food of the given nutrition, made of `material`, provides for `kind`.
fn nutrition_of(
    kind: NeedKind,
    provides: &ProvidesNutrition,
    material: Option<&MaterialComponent>,
    materials: &DefinitionStorage<MaterialDefinition>,
) -> (r: Option<Range<i32>>)
    requires
        kind != NeedKind::Sleep,
        material_known(material, materials),
    ensures
        food_nutrition(kind, *provides, material, materials, r),
{
    match provides {
        ProvidesNutrition::FromMaterial => match material {
            Some(m) => {
                let state = m.fetch_state(materials);
                nutrition_for(kind, &state.nutrition)
            },
            None => None,
        },
        ProvidesNutrition::Value(v) => nutrition_for(kind, v),
    }
}

/// The calories or hydration an item provides: by its definition's own
/// value, or by the state of its material. Sleep is met by no item.
pub fn item_nutrition(
    kind: NeedKind,
    item: ItemComponent,
    material: Option<&MaterialComponent>,
    items: &DefinitionStorage<ItemDefinition>,
    materials: &DefinitionStorage<MaterialDefinition>,
) -> (r: Option<Range<i32>>)
    requires
        kind != NeedKind::Sleep,
        item.def.0 < items.defs().len(),
        material_known(material, materials),
    ensures
        food_nutrition(kind, items.defs()[item.def.0 as int].nutrition, material, materials, r),
{
    let def = item.fetch(items);
    nutrition_of(kind, &def.nutrition, material, materials)
}

/// The calories or hydration a plant provides: by its definition's own
/// value, or by the state of its material. Sleep is met by no plant.
pub fn foliage_nutrition(
    kind: NeedKind,
    foliage: FoliageComponent,
    material: Option<&MaterialComponent>,
    materials: &DefinitionStorage<MaterialDefinition>,
    foliages: &DefinitionStorage<FoliageDefinition>,
) -> (r: Option<Range<i32>>)
    requires
        kind != NeedKind::Sleep,
        foliage.def.0 < foliages.defs().len(),
        material_known(material, materials),
    ensures
        food_nutrition(kind, foliages.defs()[foliage.def.0 as int].nutrition, material, materials, r),
{
    let def = foliage.fetch(foliages);
    nutrition_of(kind, &def.nutrition, material, materials)
}

/// Whether a food of `provides`, made of `material`, provides anything for `kind`.
pub open spec fn provides_food(
    kind: NeedKind,
    provides: ProvidesNutrition,
    material: Option<&MaterialComponent>,
    materials: &DefinitionStorage<MaterialDefinition>,
) -> bool {
    exists|r: Option<Range<i32>>| food_nutrition(kind, provides, material, materials, r) && r is Some
}

/// What a food provides for a need is given or not whichever answer one
/// looks at: an answer without anything means none provides anything.
proof fn lemma_food_none(
    kind: NeedKind,
    provides: ProvidesNutrition,
    material: Option<&MaterialComponent>,
    materials: &DefinitionStorage<MaterialDefinition>,
    r: Option<Range<i32>>,
)
    requires
        food_nutrition(kind, provides, material, materials, r),
    ensures
        r is None ==> !provides_food(kind, provides, material, materials),
        r is Some ==> provides_food(kind, provides, material, materials),
{
    if r is None && provides_food(kind, provides, material, materials) {
        let r2 = choose|r2: Option<Range<i32>>| food_nutrition(kind, provides, material, materials, r2) && r2 is Some;
        match provides {
            ProvidesNutrition::Value(v) => {},
            ProvidesNutrition::FromMaterial => match material {
                None => {},
                Some(m) => {
                    let states = materials.defs()[m.spec_def().0 as int].states@;
                    let i1 = choose|i: int| state_index(states, m.spec_state(), i) && range_is(
                        r, spec_nutrition_for(kind, states[i].1.nutrition));
                    let i2 = choose|i: int| state_index(states, m.spec_state(), i) && range_is(
                        r2, spec_nutrition_for(kind, states[i].1.nutrition));
                    if i1 < i2 {
                        assert(states[i1].0 != m.spec_state());
                    } else if i2 < i1 {
                        assert(states[i2].0 != m.spec_state());
                    }
                },
            },
        }
    }
}

/// Whether an item of definition `def`, made of `material`, has what the
/// item condition `property` names (a material condition aside).
pub open spec fn item_has(
    property: Item,
    def: ItemDefinition,
    material: Option<&MaterialComponent>,
    materials: &DefinitionStorage<MaterialDefinition>,
) -> bool {
    match property {
        Item::Ability(a) => exists|i: int| 0 <= i < def.abilities@.len() && #[trigger] def.abilities@[i].kind == a,
        Item::Name(n) => def.spec_name() == n@,
        Item::Property(p) => def.properties.bits & p.spec_bits() == p.spec_bits(),
        Item::Nutrition(Nutrition::Kind(Some(k))) => provides_food(k, def.nutrition, material, materials),
        Item::Nutrition(Nutrition::Kind(None)) => provides_food(NeedKind::Calories, def.nutrition, material, materials)
            || provides_food(NeedKind::Hydration, def.nutrition, material, materials),
        Item::Material(_) => false,
    }
}

/// Whether `item`, made of `material`, meets the item condition
/// `property` as `op` asks: having it for `True`, lacking it for `False`.
/// A material condition is never met. A condition on any nutrition asks
/// for calories, then water, then sleep, which no item is asked for, so
/// one of the first two must be provided.
pub fn check_item_value(
    op: Operator,
    property: &Item,
    item: ItemComponent,
    material: Option<&MaterialComponent>,
    items: &DefinitionStorage<ItemDefinition>,
    materials: &DefinitionStorage<MaterialDefinition>,
) -> (r: bool)
    requires
        !(property is Material) ==> (op == Operator::True || op == Operator::False),
        item.def.0 < items.defs().len(),
        material_known(material, materials),
        property matches Item::Nutrition(Nutrition::Kind(Some(k))) ==> k != NeedKind::Sleep,
        property matches Item::Nutrition(Nutrition::Kind(None)) ==> (
            provides_food(NeedKind::Calories, items.defs()[item.def.0 as int].nutrition, material, materials)
            || provides_food(NeedKind::Hydration, items.defs()[item.def.0 as int].nutrition, material, materials)),
    ensures
        r == match *property {
            Item::Material(_) => false,
            _ => item_has(*property, items.defs()[item.def.0 as int], material, materials) == (op == Operator::True),
        },
{
    if let Item::Material(_) = property {
        return false;
    }
    let def = item.fetch(items);
    let has = match property {
        Item::Ability(ability) => def.has_ability(*ability),
        Item::Name(name) => {
            let own = def.name().to_owned();
            own == *name
        },
        Item::Property(p) => def.properties.contains(*p),
        Item::Nutrition(Nutrition::Kind(Some(kind))) => {
            let r = item_nutrition(*kind, item, material, items, materials);
            proof {
                lemma_food_none(*kind, def.nutrition, material, materials, r);
            }
            r.is_some()
        },
        Item::Nutrition(Nutrition::Kind(None)) => {
            let calories = item_nutrition(NeedKind::Calories, item, material, items, materials);
            if calories.is_some() {
                true
            } else {
                let hydration = item_nutrition(NeedKind::Hydration, item, material, items, materials);
                proof {
                    lemma_food_none(NeedKind::Calories, def.nutrition, material, materials, calories);
                    lemma_food_none(NeedKind::Hydration, def.nutrition, material, materials, hydration);
                }
                hydration.is_some()
            }
        },
        Item::Material(_) => false,
    };
    has == operator_holds(op)
}

/// Whether the tile kind condition `tile` holds of a tile of kind `kind`,
/// as `op` asks.
pub fn check_tile_value(op: Operator, tile: &Tile, kind: TileKind) -> (r: bool)
    requires
        op == Operator::True || op == Operator::False,
    ensures
        r == (match *tile { Tile::Kind(k) => k == kind } == (op == Operator::True)),
{
    let has = match tile {
        Tile::Kind(k) => *k == kind,
    };
    has == operator_holds(op)
}

/// Whether the foliage condition `kind` holds of an entity whose foliage
/// kind is `foliage` (none when it is no foliage), as `op` asks.
pub fn check_foliage_value(op: Operator, kind: FoliageKind, foliage: Option<FoliageKind>) -> (r: bool)
    requires
        op == Operator::True || op == Operator::False,
    ensures
        r == ((foliage == Some(kind)) == (op == Operator::True)),
{
    let has = match foliage {
        Some(f) => f == kind,
        None => false,
    };
    has == operator_holds(op)
}

/// The range of `nutrition` for `kind`: calories, else hydration.
pub open spec fn range_for(kind: NeedKind, nutrition: crate::defs::needs::Nutrition) -> (i32, i32) {
    let r = if kind == NeedKind::Calories { nutrition.calories } else { nutrition.hydration };
    (r.start, r.end)
}

/// What an entity that is the item `item`, or else the plant `foliage`,
/// made of `material`, is worth for the need `kind`, provided or not.
/// A plant gets nothing from its material.
pub open spec fn nutrition_value_is(
    kind: NeedKind,
    item: Option<ItemComponent>,
    foliage: Option<FoliageComponent>,
    material: Option<&MaterialComponent>,
    items: &DefinitionStorage<ItemDefinition>,
    materials: &DefinitionStorage<MaterialDefinition>,
    foliages: &DefinitionStorage<FoliageDefinition>,
    r: Option<Range<i32>>,
) -> bool {
    match item {
        Some(it) => match items.defs()[it.def.0 as int].nutrition {
            ProvidesNutrition::Value(v) => range_is(r, Some(range_for(kind, v))),
            ProvidesNutrition::FromMaterial => match material {
                None => r is None,
                Some(m) => exists|i: int|
                    state_index(materials.defs()[m.spec_def().0 as int].states@, m.spec_state(), i) && range_is(
                        r,
                        Some(range_for(kind, materials.defs()[m.spec_def().0 as int].states@[i].1.nutrition)),
                    ),
            },
        },
        None => match foliage {
            Some(f) => match foliages.defs()[f.def.0 as int].nutrition {
                ProvidesNutrition::Value(v) => range_is(r, Some(range_for(kind, v))),
                ProvidesNutrition::FromMaterial => r is None,
            },
            None => r is None,
        },
    }
}

/// The range of `nutrition` for `kind`: calories, else hydration.
fn range_of(kind: NeedKind, nutrition: &crate::defs::needs::Nutrition) -> (r: Range<i32>)
    ensures
        (r.start, r.end) == range_for(kind, *nutrition),
{
    if kind == NeedKind::Calories {
        Range { start: nutrition.calories.start, end: nutrition.calories.end }
    } else {
        Range { start: nutrition.hydration.start, end: nutrition.hydration.end }
    }
}

/// What an entity that is the item `item`, or else the plant `foliage`,
/// made of `material`, is worth for the need `kind`: the range its
/// definition gives, or the one of its material's state for an item made
/// of one. Sleep is met by nothing.
pub fn get_nutrition_value(
    kind: NeedKind,
    item: Option<ItemComponent>,
    foliage: Option<FoliageComponent>,
    material: Option<&MaterialComponent>,
    items: &DefinitionStorage<ItemDefinition>,
    materials: &DefinitionStorage<MaterialDefinition>,
    foliages: &DefinitionStorage<FoliageDefinition>,
) -> (r: Option<Range<i32>>)
    requires
        kind != NeedKind::Sleep,
        item matches Some(it) ==> it.def.0 < items.defs().len(),
        item is None ==> (foliage matches Some(f) ==> f.def.0 < foliages.defs().len()),
        material_known(material, materials),
    ensures
        nutrition_value_is(kind, item, foliage, material, items, materials, foliages, r),
{
    match item {
        Some(it) => {
            let def = it.fetch(items);
            match &def.nutrition {
                ProvidesNutrition::Value(v) => Some(range_of(kind, v)),
                ProvidesNutrition::FromMaterial => match material {
                    Some(m) => {
                        let state = m.fetch_state(materials);
                        Some(range_of(kind, &state.nutrition))
                    },
                    None => None,
                },
            }
        },
        None => match foliage {
            Some(f) => {
                let def = f.fetch(foliages);
                match &def.nutrition {
                    ProvidesNutrition::Value(v) => Some(range_of(kind, v)),
                    ProvidesNutrition::FromMaterial => None,
                }
            },
            None => None,
        },
    }
}

} // verus!

verus! {

/// A nutrition value that meets a need: it starts above 0.
pub open spec fn nourishes(v: Option<Range<i32>>) -> bool {
    v matches Some(x) && x.start > 0
}

/// The entity a creature picks to meet a need among `found`, each given
/// with its nutrition value for that need (see `get_nutrition_value`): the
/// first whose value starts above 0, or `None` when none does.
pub fn first_nourishing(found: &Vec<(crate::components::Entity, Option<Range<i32>>)>) -> (r: Option<crate::components::Entity>)
    ensures
        match r {
            Some(e) => exists|i: int| {
                &&& 0 <= i < found@.len()
                &&& found@[i].0 == e
                &&& nourishes(found@[i].1)
                &&& forall|j: int| 0 <= j < i ==> !nourishes(#[trigger] found@[j].1)
            },
            None => forall|i: int| 0 <= i < found@.len() ==> !nourishes(#[trigger] found@[i].1),
        },
{
    let mut i: usize = 0;
    while i < found.len()
        invariant
            i <= found@.len(),
            forall|j: int| 0 <= j < i ==> !nourishes(#[trigger] found@[j].1),
        decreases found@.len() - i,
    {
        match &found[i].1 {
            Some(v) => {
                if v.start > 0 {
                    assert(nourishes(found@[i as int].1));
                    return Some(found[i].0);
                }
            },
            None => {},
        }
        i = i + 1;
    }
    None
}

} // verus!

//! The text form of condition chains, such as
//! `self has item property is_flammable & (target is tile kind floor)`,
//! and its parser. The grammar tries its alternatives in order and takes
//! the first that matches; a chain parses only when it takes up the whole
//! text. Material limits are read by a function the caller gives, from the
//! limit written with `to_ron_case`.
use vstd::prelude::*;
use crate::defs::condition::{
    Condition, ConditionRight, ConditionSet, Item, Material, Nutrition, Operator, Property,
    Subject, Tile, Value, ron_case, to_ron_case, push_char,
};
use crate::defs::foliage::FoliageKind;
use crate::defs::item::{ItemAbilityKind, ItemProperty};
use crate::defs::material::MaterialLimit;
use crate::defs::needs::NeedKind;
use crate::tile::TileKind;

verus! {

/// An item condition, with names as character sequences.
pub enum ItemModel {
    Name(Seq<char>),
    Property(ItemProperty),
    Ability(ItemAbilityKind),
    Material(Material),
    Nutrition(Nutrition),
}

/// What a condition looks at, with names as character sequences.
pub enum ValueModel {
    Property(Property),
    Item(ItemModel),
    Tile(Tile),
    Foliage(FoliageKind),
}

/// A condition, with names as character sequences.
pub struct ConditionModel {
    pub subject: Subject,
    pub op: Operator,
    pub value: ValueModel,
}

/// The rest of a chain, with names as character sequences.
pub struct RightModel {
    pub op: Operator,
    pub set: Box<SetModel>,
}

/// A chain of conditions, with names as character sequences.
pub struct SetModel {
    pub left: ConditionModel,
    pub right: Option<RightModel>,
}

pub open spec fn item_model(i: Item) -> ItemModel {
    match i {
        Item::Name(n) => ItemModel::Name(n@),
        Item::Property(p) => ItemModel::Property(p),
        Item::Ability(a) => ItemModel::Ability(a),
        Item::Material(m) => ItemModel::Material(m),
        Item::Nutrition(n) => ItemModel::Nutrition(n),
    }
}

pub open spec fn value_model(v: Value) -> ValueModel {
    match v {
        Value::Property(p) => ValueModel::Property(p),
        Value::Item(i) => ValueModel::Item(item_model(i)),
        Value::Tile(t) => ValueModel::Tile(t),
        Value::Foliage(f) => ValueModel::Foliage(f),
    }
}

pub open spec fn condition_model(c: Condition) -> ConditionModel {
    ConditionModel { subject: c.subject, op: c.op, value: value_model(c.value) }
}

pub open spec fn set_model(s: ConditionSet) -> SetModel
    decreases s,
{
    SetModel {
        left: condition_model(s.left),
        right: match s.right {
            Some(r) => Some(RightModel { op: r.op, set: Box::new(set_model(*r.set)) }),
            None => None,
        },
    }
}

/// Space between tokens: blanks and line breaks.
pub open spec fn is_ws(c: char) -> bool {
    c == ' ' || c == '\n'
}

/// A letter, a digit or an underscore.
pub open spec fn is_ident_char(c: char) -> bool {
    ('a' <= c && c <= 'z') || ('A' <= c && c <= 'Z') || ('0' <= c && c <= '9') || c == '_'
}

/// A character of a written material limit: those of a name, and parentheses.
pub open spec fn is_ron_char(c: char) -> bool {
    is_ident_char(c) || c == '(' || c == ')'
}

/// The position after the space starting at `p`.
pub open spec fn skip_ws(s: Seq<char>, p: int) -> int
    decreases s.len() - p,
{
    if 0 <= p < s.len() && is_ws(s[p]) {
        skip_ws(s, p + 1)
    } else {
        p
    }
}

/// The end of the run of name characters (or limit characters, for
/// `ron`) starting at `p`.
pub open spec fn run_end(s: Seq<char>, p: int, ron: bool) -> int
    decreases s.len() - p,
{
    if 0 <= p < s.len() && (if ron { is_ron_char(s[p]) } else { is_ident_char(s[p]) }) {
        run_end(s, p + 1, ron)
    } else {
        p
    }
}

/// Whether `w` is written at `p`.
pub open spec fn lit(s: Seq<char>, p: int, w: Seq<char>) -> bool {
    0 <= p && p + w.len() <= s.len() && s.subrange(p, p + w.len()) == w
}

/// A name (or a written limit, for `ron`) at `p`: at least one character.
pub open spec fn spec_word(s: Seq<char>, p: int, ron: bool) -> Option<(Seq<char>, int)> {
    let e = run_end(s, p, ron);
    if e > p {
        Some((s.subrange(p, e), e))
    } else {
        None
    }
}

/// `is`, `!is` and `has` ask that a value holds; `!has` that it does not.
pub open spec fn spec_operator(s: Seq<char>, p: int) -> Option<(Operator, int)> {
    if lit(s, p, seq!['i', 's']) {
        Some((Operator::True, p + 2))
    } else if lit(s, p, seq!['!', 'i', 's']) {
        Some((Operator::True, p + 3))
    } else if lit(s, p, seq!['h', 'a', 's']) {
        Some((Operator::True, p + 3))
    } else if lit(s, p, seq!['!', 'h', 'a', 's']) {
        Some((Operator::False, p + 4))
    } else {
        None
    }
}

/// `|` joins by or, `&` by and.
pub open spec fn spec_set_operator(s: Seq<char>, p: int) -> Option<(Operator, int)> {
    if lit(s, p, seq!['|']) {
        Some((Operator::Or, p + 1))
    } else if lit(s, p, seq!['&']) {
        Some((Operator::And, p + 1))
    } else {
        None
    }
}

/// `self` is the subject itself, `target` its target.
pub open spec fn spec_subject(s: Seq<char>, p: int) -> Option<(Subject, int)> {
    if lit(s, p, seq!['s', 'e', 'l', 'f']) {
        Some((Subject::Me, p + 4))
    } else if lit(s, p, seq!['t', 'a', 'r', 'g', 'e', 't']) {
        Some((Subject::Target, p + 6))
    } else {
        None
    }
}

/// `any`, `calories` or `hydration`.
pub open spec fn spec_nutrition(s: Seq<char>, p: int) -> Option<(Nutrition, int)> {
    if lit(s, p, seq!['a', 'n', 'y']) {
        Some((Nutrition::Kind(None), p + 3))
    } else if lit(s, p, seq!['c', 'a', 'l', 'o', 'r', 'i', 'e', 's']) {
        Some((Nutrition::Kind(Some(NeedKind::Calories)), p + 8))
    } else if lit(s, p, seq!['h', 'y', 'd', 'r', 'a', 't', 'i', 'o', 'n']) {
        Some((Nutrition::Kind(Some(NeedKind::Hydration)), p + 9))
    } else {
        None
    }
}

/// The item property named `w` in snake case.
pub open spec fn property_named(w: Seq<char>) -> Option<ItemProperty> {
    if w == seq!['i', 's', '_', 'e', 'd', 'i', 'b', 'l', 'e'] {
        Some(ItemProperty::IsEdible)
    } else if w == seq!['i', 's', '_', 'f', 'l', 'a', 'm', 'm', 'a', 'b', 'l', 'e'] {
        Some(ItemProperty::IsFlammable)
    } else {
        None
    }
}

/// The item ability named `w` in snake case.
pub open spec fn ability_named(w: Seq<char>) -> Option<ItemAbilityKind> {
    if w == seq!['d', 'i', 'g', 'g', 'i', 'n', 'g'] {
        Some(ItemAbilityKind::Digging)
    } else if w == seq!['c', 'h', 'o', 'p', 'p', 'i', 'n', 'g'] {
        Some(ItemAbilityKind::Chopping)
    } else if w == seq!['h', 'a', 'm', 'm', 'e', 'r', 'i', 'n', 'g'] {
        Some(ItemAbilityKind::Hammering)
    } else if w == seq!['c', 'u', 't', 't', 'i', 'n', 'g'] {
        Some(ItemAbilityKind::Cutting)
    } else if w == seq!['s', 'a', 'w', 'i', 'n', 'g'] {
        Some(ItemAbilityKind::Sawing)
    } else {
        None
    }
}

/// The plant kind named `w` in snake case.
pub open spec fn foliage_named(w: Seq<char>) -> Option<FoliageKind> {
    if w == seq!['t', 'r', 'e', 'e'] {
        Some(FoliageKind::Tree)
    } else if w == seq!['b', 'u', 's', 'h'] {
        Some(FoliageKind::Bush)
    } else if w == seq!['g', 'r', 'a', 's', 's'] {
        Some(FoliageKind::Grass)
    } else {
        None
    }
}

/// The tile kind named `w` in snake case.
pub open spec fn tile_named(w: Seq<char>) -> Option<TileKind> {
    if w == seq!['e', 'm', 'p', 't', 'y'] {
        Some(TileKind::Empty)
    } else if w == seq!['f', 'l', 'o', 'o', 'r'] {
        Some(TileKind::Floor)
    } else if w == seq!['r', 'a', 'm', 'p', '_', 'u', 'p', '_', 'n', 'o', 'r', 't', 'h'] {
        Some(TileKind::RampUpNorth)
    } else if w == seq!['r', 'a', 'm', 'p', '_', 'u', 'p', '_', 's', 'o', 'u', 't', 'h'] {
        Some(TileKind::RampUpSouth)
    } else if w == seq!['r', 'a', 'm', 'p', '_', 'u', 'p', '_', 'e', 'a', 's', 't'] {
        Some(TileKind::RampUpEast)
    } else if w == seq!['r', 'a', 'm', 'p', '_', 'u', 'p', '_', 'w', 'e', 's', 't'] {
        Some(TileKind::RampUpWest)
    } else if w == seq!['b', 'u', 'i', 'l', 'd', 'i', 'n', 'g'] {
        Some(TileKind::Building)
    } else if w == seq!['s', 'o', 'l', 'i', 'd'] {
        Some(TileKind::Solid)
    } else {
        None
    }
}

/// A material condition: an operator, then a written limit that `lim`
/// reads once put in `to_ron_case`.
pub open spec fn spec_material(s: Seq<char>, p: int, lim: spec_fn(Seq<char>) -> Option<MaterialLimit>) -> Option<(Material, int)> {
    match spec_operator(s, p) {
        Some((op, p1)) => match spec_word(s, skip_ws(s, p1), true) {
            Some((w, p2)) => match lim(ron_case(w)) {
                Some(limit) => Some((Material { op, limit }, p2)),
                None => None,
            },
            None => None,
        },
        None => None,
    }
}

/// A word after a keyword of `k` characters at `p`, past the space.
pub open spec fn word_after(s: Seq<char>, p: int, k: int) -> Option<(Seq<char>, int)> {
    spec_word(s, skip_ws(s, p + k), false)
}

/// The first alternative that matches.
pub open spec fn first<T>(a: Option<T>, b: Option<T>) -> Option<T> {
    match a {
        Some(x) => Some(x),
        None => b,
    }
}

/// A keyword of `k` characters at `p`, then (past the space) a word that
/// `named` reads.
pub open spec fn keyword_named<T>(s: Seq<char>, p: int, w: Seq<char>, named: spec_fn(Seq<char>) -> Option<T>) -> Option<(T, int)> {
    if lit(s, p, w) {
        match word_after(s, p, w.len() as int) {
            Some((n, q)) => match named(n) {
                Some(x) => Some((x, q)),
                None => None,
            },
            None => None,
        }
    } else {
        None
    }
}

/// A word that `named` reads, at `p`.
pub open spec fn word_named<T>(s: Seq<char>, p: int, named: spec_fn(Seq<char>) -> Option<T>) -> Option<(T, int)> {
    match spec_word(s, p, false) {
        Some((n, q)) => match named(n) {
            Some(x) => Some((x, q)),
            None => None,
        },
        None => None,
    }
}

/// An item condition: `name` and a name, `material` and a material
/// condition, `property` and a property, `ability` and an ability,
/// `nutrition` and a need; or else a bare name.
pub open spec fn spec_item(s: Seq<char>, p: int, lim: spec_fn(Seq<char>) -> Option<MaterialLimit>) -> Option<(ItemModel, int)> {
    let by_name = match keyword_named(s, p, seq!['n', 'a', 'm', 'e'], |w: Seq<char>| Some(w)) {
        Some((w, q)) => Some((ItemModel::Name(w), q)),
        None => None,
    };
    let by_material = if lit(s, p, seq!['m', 'a', 't', 'e', 'r', 'i', 'a', 'l']) {
        match spec_material(s, skip_ws(s, p + 8), lim) {
            Some((m, q)) => Some((ItemModel::Material(m), q)),
            None => None,
        }
    } else {
        None
    };
    let by_property = match keyword_named(s, p, seq!['p', 'r', 'o', 'p', 'e', 'r', 't', 'y'], |w: Seq<char>| property_named(w)) {
        Some((x, q)) => Some((ItemModel::Property(x), q)),
        None => None,
    };
    let by_ability = match keyword_named(s, p, seq!['a', 'b', 'i', 'l', 'i', 't', 'y'], |w: Seq<char>| ability_named(w)) {
        Some((x, q)) => Some((ItemModel::Ability(x), q)),
        None => None,
    };
    let by_nutrition = if lit(s, p, seq!['n', 'u', 't', 'r', 'i', 't', 'i', 'o', 'n']) {
        match spec_nutrition(s, skip_ws(s, p + 9)) {
            Some((n, q)) => Some((ItemModel::Nutrition(n), q)),
            None => None,
        }
    } else {
        None
    };
    let bare = match spec_word(s, p, false) {
        Some((w, q)) => Some((ItemModel::Name(w), q)),
        None => None,
    };
    first(by_name, first(by_material, first(by_property, first(by_ability, first(by_nutrition, bare)))))
}

/// A plant condition: a kind, or `kind` and a kind.
pub open spec fn spec_foliage(s: Seq<char>, p: int) -> Option<(FoliageKind, int)> {
    first(
        word_named(s, p, |w: Seq<char>| foliage_named(w)),
        keyword_named(s, p, seq!['k', 'i', 'n', 'd'], |w: Seq<char>| foliage_named(w)),
    )
}

/// A tile condition: a kind, or `kind` and a kind.
pub open spec fn spec_tile(s: Seq<char>, p: int) -> Option<(TileKind, int)> {
    first(
        word_named(s, p, |w: Seq<char>| tile_named(w)),
        keyword_named(s, p, seq!['k', 'i', 'n', 'd'], |w: Seq<char>| tile_named(w)),
    )
}

/// What a condition looks at: `item`, `property`, `tile` or `foliage`,
/// each followed by its condition. Any name after `property` reads as the
/// one property there is.
pub open spec fn spec_value(s: Seq<char>, p: int, lim: spec_fn(Seq<char>) -> Option<MaterialLimit>) -> Option<(ValueModel, int)> {
    let item = if lit(s, p, seq!['i', 't', 'e', 'm']) {
        match spec_item(s, skip_ws(s, p + 4), lim) {
            Some((i, q)) => Some((ValueModel::Item(i), q)),
            None => None,
        }
    } else {
        None
    };
    let property = match keyword_named(s, p, seq!['p', 'r', 'o', 'p', 'e', 'r', 't', 'y'], |w: Seq<char>| Some(Property::Test)) {
        Some((x, q)) => Some((ValueModel::Property(x), q)),
        None => None,
    };
    let tile = if lit(s, p, seq!['t', 'i', 'l', 'e']) {
        match spec_tile(s, skip_ws(s, p + 4)) {
            Some((t, q)) => Some((ValueModel::Tile(Tile::Kind(t)), q)),
            None => None,
        }
    } else {
        None
    };
    let foliage = if lit(s, p, seq!['f', 'o', 'l', 'i', 'a', 'g', 'e']) {
        match spec_foliage(s, skip_ws(s, p + 7)) {
            Some((f, q)) => Some((ValueModel::Foliage(f), q)),
            None => None,
        }
    } else {
        None
    };
    first(item, first(property, first(tile, foliage)))
}

/// An operator and a value, past the space.
pub open spec fn op_value(s: Seq<char>, p: int, lim: spec_fn(Seq<char>) -> Option<MaterialLimit>) -> Option<(Operator, ValueModel, int)> {
    match spec_operator(s, p) {
        Some((op, p1)) => match spec_value(s, skip_ws(s, p1), lim) {
            Some((v, p2)) => Some((op, v, p2)),
            None => None,
        },
        None => None,
    }
}

/// A condition: a subject, an operator and a value; or, about the subject
/// itself, an operator and a value.
pub open spec fn spec_condition(s: Seq<char>, p: int, lim: spec_fn(Seq<char>) -> Option<MaterialLimit>) -> Option<(ConditionModel, int)> {
    let with_subject = match spec_subject(s, p) {
        Some((subject, p1)) => match op_value(s, skip_ws(s, p1), lim) {
            Some((op, v, q)) => Some((ConditionModel { subject, op, value: v }, q)),
            None => None,
        },
        None => None,
    };
    let about_self = match op_value(s, p, lim) {
        Some((op, v, q)) => Some((ConditionModel { subject: Subject::Me, op, value: v }, q)),
        None => None,
    };
    first(with_subject, about_self)
}

/// A chain: a condition, then `|` or `&` and a statement; or else the
/// condition alone.
pub open spec fn spec_condition_set(s: Seq<char>, p: int, lim: spec_fn(Seq<char>) -> Option<MaterialLimit>) -> Option<(SetModel, int)>
    decreases s.len() - p, 0int,
{
    match spec_condition(s, p, lim) {
        None => None,
        Some((c, p1)) => {
            let joined = match spec_set_operator(s, skip_ws(s, p1)) {
                Some((op, p3)) => {
                    let p4 = skip_ws(s, p3);
                    if p < p4 <= s.len() {
                        match spec_statement(s, p4, lim) {
                            Some((r, p5)) => Some((SetModel { left: c, right: Some(RightModel { op, set: Box::new(r) }) }, p5)),
                            None => None,
                        }
                    } else {
                        None
                    }
                },
                None => None,
            };
            match joined {
                Some(x) => Some(x),
                None => Some((SetModel { left: c, right: None }, p1)),
            }
        },
    }
}

/// A statement: a chain in parentheses, or a chain.
pub open spec fn spec_statement(s: Seq<char>, p: int, lim: spec_fn(Seq<char>) -> Option<MaterialLimit>) -> Option<(SetModel, int)>
    decreases s.len() - p, 1int,
{
    let q = skip_ws(s, p + 1);
    let paren = if lit(s, p, seq!['(']) && p < q <= s.len() {
        match spec_condition_set(s, q, lim) {
            Some((v, p2)) => if lit(s, skip_ws(s, p2), seq![')']) {
                Some((v, skip_ws(s, p2) + 1))
            } else {
                None
            },
            None => None,
        }
    } else {
        None
    };
    match paren {
        Some(x) => Some(x),
        None => if 0 <= p <= s.len() {
            spec_condition_set(s, p, lim)
        } else {
            None
        },
    }
}

/// The chain `s` spells out, when a statement takes up all of it.
pub open spec fn spec_parse(s: Seq<char>, lim: spec_fn(Seq<char>) -> Option<MaterialLimit>) -> Option<SetModel> {
    match spec_statement(s, 0, lim) {
        Some((v, e)) => if e == s.len() {
            Some(v)
        } else {
            None
        },
        None => None,
    }
}

/// Why a text is not a condition chain.
#[derive(Debug, Clone, Copy, PartialEq, Eq, Structural)]
pub enum ConditionParseError {
    /// No statement starts the text.
    NoStatement,
    /// A statement starts the text but ends before it; at this position.
    TrailingInput(usize),
}

/// The characters of `input`.
fn chars_of(input: &str) -> (r: Vec<char>)
    ensures
        r@ == input@,
{
    let mut r: Vec<char> = Vec::new();
    for c in it: input.chars()
        invariant
            it.seq() == input@,
            r@ == input@.subrange(0, it.index() as int),
    {
        proof {
            assert(input@.subrange(0, it.index() + 1) == r@.push(c));
        }
        r.push(c);
    }
    proof {
        assert(input@.subrange(0, input@.len() as int) == input@);
    }
    r
}

/// The characters of `cs` from `a` to `b`, as a string.
fn string_of(cs: &Vec<char>, a: usize, b: usize) -> (r: String)
    requires
        a <= b <= cs@.len(),
    ensures
        r@ == cs@.subrange(a as int, b as int),
{
    let mut r = String::new();
    let mut i = a;
    while i < b
        invariant
            a <= i <= b <= cs@.len(),
            r@ == cs@.subrange(a as int, i as int),
        decreases b - i,
    {
        push_char(&mut r, cs[i]);
        proof {
            assert(cs@.subrange(a as int, i + 1) == cs@.subrange(a as int, i as int).push(cs@[i as int]));
        }
        i = i + 1;
    }
    r
}

fn is_ws_char(c: char) -> (r: bool)
    ensures
        r == is_ws(c),
{
    c == ' ' || c == '\n'
}

fn is_word_char(c: char, ron: bool) -> (r: bool)
    ensures
        r == (if ron { is_ron_char(c) } else { is_ident_char(c) }),
{
    let ident = ('a' <= c && c <= 'z') || ('A' <= c && c <= 'Z') || ('0' <= c && c <= '9') || c == '_';
    if ron {
        ident || c == '(' || c == ')'
    } else {
        ident
    }
}

/// The position after the space at `p`.
fn skip(cs: &Vec<char>, p: usize) -> (r: usize)
    requires
        p <= cs@.len(),
    ensures
        r == skip_ws(cs@, p as int),
        p <= r <= cs@.len(),
{
    let mut i = p;
    while i < cs.len() && is_ws_char(cs[i])
        invariant
            p <= i <= cs@.len(),
            skip_ws(cs@, p as int) == skip_ws(cs@, i as int),
        decreases cs@.len() - i,
    {
        i = i + 1;
    }
    i
}

/// The end of the run of word characters at `p`.
fn word_end(cs: &Vec<char>, p: usize, ron: bool) -> (r: usize)
    requires
        p <= cs@.len(),
    ensures
        r == run_end(cs@, p as int, ron),
        p <= r <= cs@.len(),
{
    let mut i = p;
    while i < cs.len() && is_word_char(cs[i], ron)
        invariant
            p <= i <= cs@.len(),
            run_end(cs@, p as int, ron) == run_end(cs@, i as int, ron),
        decreases cs@.len() - i,
    {
        i = i + 1;
    }
    i
}

/// Whether `w` is written at `p`.
fn matches_at(cs: &Vec<char>, p: usize, w: &[char]) -> (r: bool)
    requires
        p <= cs@.len(),
    ensures
        r == lit(cs@, p as int, w@),
        r ==> p + w@.len() <= cs@.len(),
        cs@.len() <= usize::MAX,
{
    if w.len() > cs.len() - p {
        return false;
    }
    let mut i: usize = 0;
    while i < w.len()
        invariant
            p + w@.len() <= cs@.len(),
            cs@.len() <= usize::MAX,
            i <= w@.len(),
            forall|j: int| 0 <= j < i ==> cs@[p + j] == w@[j],
        decreases w@.len() - i,
    {
        if cs[p + i] != w[i] {
            proof {
                assert(cs@.subrange(p as int, p + w@.len())[i as int] != w@[i as int]);
            }
            return false;
        }
        i = i + 1;
    }
    proof {
        assert(cs@.subrange(p as int, p + w@.len()) == w@);
    }
    true
}

/// The word at `p`, as its bounds.
fn word(cs: &Vec<char>, p: usize, ron: bool) -> (r: Option<(usize, usize)>)
    requires
        p <= cs@.len(),
    ensures
        match r {
            Some((a, e)) => a == p && spec_word(cs@, p as int, ron) == Some((cs@.subrange(p as int, e as int), e as int)) && e <= cs@.len(),
            None => spec_word(cs@, p as int, ron) is None,
        },
{
    let e = word_end(cs, p, ron);
    if e > p {
        Some((p, e))
    } else {
        None
    }
}

/// Whether the characters from `a` to `b` spell `w`.
fn spells(cs: &Vec<char>, a: usize, b: usize, w: &[char]) -> (r: bool)
    requires
        a <= b <= cs@.len(),
    ensures
        r == (cs@.subrange(a as int, b as int) == w@),
{
    if b - a != w.len() {
        return false;
    }
    matches_at(cs, a, w)
}

fn operator(cs: &Vec<char>, p: usize) -> (r: Option<(Operator, usize)>)
    requires
        p <= cs@.len(),
    ensures
        match r {
            Some((op, q)) => spec_operator(cs@, p as int) == Some((op, q as int)) && q <= cs@.len(),
            None => spec_operator(cs@, p as int) is None,
        },
{
    if matches_at(cs, p, &['i', 's']) {
        Some((Operator::True, p + 2))
    } else if matches_at(cs, p, &['!', 'i', 's']) {
        Some((Operator::True, p + 3))
    } else if matches_at(cs, p, &['h', 'a', 's']) {
        Some((Operator::True, p + 3))
    } else if matches_at(cs, p, &['!', 'h', 'a', 's']) {
        Some((Operator::False, p + 4))
    } else {
        None
    }
}

fn set_operator(cs: &Vec<char>, p: usize) -> (r: Option<(Operator, usize)>)
    requires
        p <= cs@.len(),
    ensures
        match r {
            Some((op, q)) => spec_set_operator(cs@, p as int) == Some((op, q as int)) && q <= cs@.len(),
            None => spec_set_operator(cs@, p as int) is None,
        },
{
    proof {
        assert(['|']@ =~= seq!['|']);
        assert(['&']@ =~= seq!['&']);
    }
    if matches_at(cs, p, &['|']) {
        Some((Operator::Or, p + 1))
    } else if matches_at(cs, p, &['&']) {
        Some((Operator::And, p + 1))
    } else {
        None
    }
}

fn subject(cs: &Vec<char>, p: usize) -> (r: Option<(Subject, usize)>)
    requires
        p <= cs@.len(),
    ensures
        match r {
            Some((x, q)) => spec_subject(cs@, p as int) == Some((x, q as int)) && q <= cs@.len(),
            None => spec_subject(cs@, p as int) is None,
        },
{
    if matches_at(cs, p, &['s', 'e', 'l', 'f']) {
        Some((Subject::Me, p + 4))
    } else if matches_at(cs, p, &['t', 'a', 'r', 'g', 'e', 't']) {
        Some((Subject::Target, p + 6))
    } else {
        None
    }
}

fn nutrition(cs: &Vec<char>, p: usize) -> (r: Option<(Nutrition, usize)>)
    requires
        p <= cs@.len(),
    ensures
        match r {
            Some((x, q)) => spec_nutrition(cs@, p as int) == Some((x, q as int)) && q <= cs@.len(),
            None => spec_nutrition(cs@, p as int) is None,
        },
{
    if matches_at(cs, p, &['a', 'n', 'y']) {
        Some((Nutrition::Kind(None), p + 3))
    } else if matches_at(cs, p, &['c', 'a', 'l', 'o', 'r', 'i', 'e', 's']) {
        Some((Nutrition::Kind(Some(NeedKind::Calories)), p + 8))
    } else if matches_at(cs, p, &['h', 'y', 'd', 'r', 'a', 't', 'i', 'o', 'n']) {
        Some((Nutrition::Kind(Some(NeedKind::Hydration)), p + 9))
    } else {
        None
    }
}

fn property_at(cs: &Vec<char>, a: usize, b: usize) -> (r: Option<ItemProperty>)
    requires
        a <= b <= cs@.len(),
    ensures
        r == property_named(cs@.subrange(a as int, b as int)),
{
    if spells(cs, a, b, &['i', 's', '_', 'e', 'd', 'i', 'b', 'l', 'e']) {
        Some(ItemProperty::IsEdible)
    } else if spells(cs, a, b, &['i', 's', '_', 'f', 'l', 'a', 'm', 'm', 'a', 'b', 'l', 'e']) {
        Some(ItemProperty::IsFlammable)
    } else {
        None
    }
}

fn ability_at(cs: &Vec<char>, a: usize, b: usize) -> (r: Option<ItemAbilityKind>)
    requires
        a <= b <= cs@.len(),
    ensures
        r == ability_named(cs@.subrange(a as int, b as int)),
{
    if spells(cs, a, b, &['d', 'i', 'g', 'g', 'i', 'n', 'g']) {
        Some(ItemAbilityKind::Digging)
    } else if spells(cs, a, b, &['c', 'h', 'o', 'p', 'p', 'i', 'n', 'g']) {
        Some(ItemAbilityKind::Chopping)
    } else if spells(cs, a, b, &['h', 'a', 'm', 'm', 'e', 'r', 'i', 'n', 'g']) {
        Some(ItemAbilityKind::Hammering)
    } else if spells(cs, a, b, &['c', 'u', 't', 't', 'i', 'n', 'g']) {
        Some(ItemAbilityKind::Cutting)
    } else if spells(cs, a, b, &['s', 'a', 'w', 'i', 'n', 'g']) {
        Some(ItemAbilityKind::Sawing)
    } else {
        None
    }
}

fn foliage_at(cs: &Vec<char>, a: usize, b: usize) -> (r: Option<FoliageKind>)
    requires
        a <= b <= cs@.len(),
    ensures
        r == foliage_named(cs@.subrange(a as int, b as int)),
{
    if spells(cs, a, b, &['t', 'r', 'e', 'e']) {
        Some(FoliageKind::Tree)
    } else if spells(cs, a, b, &['b', 'u', 's', 'h']) {
        Some(FoliageKind::Bush)
    } else if spells(cs, a, b, &['g', 'r', 'a', 's', 's']) {
        Some(FoliageKind::Grass)
    } else {
        None
    }
}

fn tile_at(cs: &Vec<char>, a: usize, b: usize) -> (r: Option<TileKind>)
    requires
        a <= b <= cs@.len(),
    ensures
        r == tile_named(cs@.subrange(a as int, b as int)),
{
    if spells(cs, a, b, &['e', 'm', 'p', 't', 'y']) {
        Some(TileKind::Empty)
    } else if spells(cs, a, b, &['f', 'l', 'o', 'o', 'r']) {
        Some(TileKind::Floor)
    } else if spells(cs, a, b, &['r', 'a', 'm', 'p', '_', 'u', 'p', '_', 'n', 'o', 'r', 't', 'h']) {
        Some(TileKind::RampUpNorth)
    } else if spells(cs, a, b, &['r', 'a', 'm', 'p', '_', 'u', 'p', '_', 's', 'o', 'u', 't', 'h']) {
        Some(TileKind::RampUpSouth)
    } else if spells(cs, a, b, &['r', 'a', 'm', 'p', '_', 'u', 'p', '_', 'e', 'a', 's', 't']) {
        Some(TileKind::RampUpEast)
    } else if spells(cs, a, b, &['r', 'a', 'm', 'p', '_', 'u', 'p', '_', 'w', 'e', 's', 't']) {
        Some(TileKind::RampUpWest)
    } else if spells(cs, a, b, &['b', 'u', 'i', 'l', 'd', 'i', 'n', 'g']) {
        Some(TileKind::Building)
    } else if spells(cs, a, b, &['s', 'o', 'l', 'i', 'd']) {
        Some(TileKind::Solid)
    } else {
        None
    }
}

/// Whether `f` reads every text, and gives one answer per text.
pub open spec fn reads_by_text<F: Fn(&str) -> Option<MaterialLimit>>(f: F) -> bool {
    &&& forall|x: &str| #[trigger] f.requires((x,))
    &&& forall|x: &str, y: &str, a: Option<MaterialLimit>, b: Option<MaterialLimit>|
        x@ == y@ && #[trigger] f.ensures((x,), a) && #[trigger] f.ensures((y,), b) ==> a == b
}

/// Whether `f` answers `r` for some text that reads `t`.
pub open spec fn answers<F: Fn(&str) -> Option<MaterialLimit>>(f: F, t: Seq<char>, r: Option<MaterialLimit>) -> bool {
    exists|x: &str| x@ == t && #[trigger] f.ensures((x,), r)
}

/// What `f` answers for the text `t`.
pub open spec fn limit_reader<F: Fn(&str) -> Option<MaterialLimit>>(f: F) -> spec_fn(Seq<char>) -> Option<MaterialLimit> {
    |t: Seq<char>| choose|r: Option<MaterialLimit>| #[trigger] answers(f, t, r)
}

fn material<F: Fn(&str) -> Option<MaterialLimit>>(cs: &Vec<char>, p: usize, f: &F) -> (r: Option<(Material, usize)>)
    requires
        p <= cs@.len(),
        reads_by_text(*f),
    ensures
        match r {
            Some((x, q)) => spec_material(cs@, p as int, limit_reader(*f)) == Some((x, q as int)) && q <= cs@.len(),
            None => spec_material(cs@, p as int, limit_reader(*f)) is None,
        },
{
    match operator(cs, p) {
        Some((op, p1)) => {
            let p2 = skip(cs, p1);
            match word(cs, p2, true) {
                Some((a, e)) => {
                    let w = string_of(cs, a, e);
                    let written = to_ron_case(w.as_str());
                    let text = written.as_str();
                    let limit = f(text);
                    proof {
                        let t = ron_case(cs@.subrange(a as int, e as int));
                        assert(text@ == t);
                        assert(answers(*f, t, limit));
                        let c = limit_reader(*f)(t);
                        assert(answers(*f, t, c));
                        let x2 = choose|x: &str| x@ == t && #[trigger] f.ensures((x,), c);
                        assert(f.ensures((x2,), c));
                        assert(c == limit);
                    }
                    match limit {
                        Some(l) => Some((Material { op, limit: l }, e)),
                        None => None,
                    }
                },
                None => None,
            }
        },
        None => None,
    }
}

fn item<F: Fn(&str) -> Option<MaterialLimit>>(cs: &Vec<char>, p: usize, f: &F) -> (r: Option<(Item, usize)>)
    requires
        p <= cs@.len(),
        reads_by_text(*f),
    ensures
        match r {
            Some((x, q)) => spec_item(cs@, p as int, limit_reader(*f)) == Some((item_model(x), q as int)) && q <= cs@.len(),
            None => spec_item(cs@, p as int, limit_reader(*f)) is None,
        },
{
    if matches_at(cs, p, &['n', 'a', 'm', 'e']) {
        match word(cs, skip(cs, p + 4), false) {
            Some((a, e)) => {
                return Some((Item::Name(string_of(cs, a, e)), e));
            },
            None => {},
        }
    }
    if matches_at(cs, p, &['m', 'a', 't', 'e', 'r', 'i', 'a', 'l']) {
        match material(cs, skip(cs, p + 8), f) {
            Some((m, q)) => {
                return Some((Item::Material(m), q));
            },
            None => {},
        }
    }
    if matches_at(cs, p, &['p', 'r', 'o', 'p', 'e', 'r', 't', 'y']) {
        match word(cs, skip(cs, p + 8), false) {
            Some((a, e)) => match property_at(cs, a, e) {
                Some(x) => {
                    return Some((Item::Property(x), e));
                },
                None => {},
            },
            None => {},
        }
    }
    if matches_at(cs, p, &['a', 'b', 'i', 'l', 'i', 't', 'y']) {
        match word(cs, skip(cs, p + 7), false) {
            Some((a, e)) => match ability_at(cs, a, e) {
                Some(x) => {
                    return Some((Item::Ability(x), e));
                },
                None => {},
            },
            None => {},
        }
    }
    if matches_at(cs, p, &['n', 'u', 't', 'r', 'i', 't', 'i', 'o', 'n']) {
        match nutrition(cs, skip(cs, p + 9)) {
            Some((n, q)) => {
                return Some((Item::Nutrition(n), q));
            },
            None => {},
        }
    }
    match word(cs, p, false) {
        Some((a, e)) => Some((Item::Name(string_of(cs, a, e)), e)),
        None => None,
    }
}

fn foliage(cs: &Vec<char>, p: usize) -> (r: Option<(FoliageKind, usize)>)
    requires
        p <= cs@.len(),
    ensures
        match r {
            Some((x, q)) => spec_foliage(cs@, p as int) == Some((x, q as int)) && q <= cs@.len(),
            None => spec_foliage(cs@, p as int) is None,
        },
{
    match word(cs, p, false) {
        Some((a, e)) => match foliage_at(cs, a, e) {
            Some(x) => {
                return Some((x, e));
            },
            None => {},
        },
        None => {},
    }
    if matches_at(cs, p, &['k', 'i', 'n', 'd']) {
        match word(cs, skip(cs, p + 4), false) {
            Some((a, e)) => match foliage_at(cs, a, e) {
                Some(x) => {
                    return Some((x, e));
                },
                None => {},
            },
            None => {},
        }
    }
    None
}

fn tile(cs: &Vec<char>, p: usize) -> (r: Option<(TileKind, usize)>)
    requires
        p <= cs@.len(),
    ensures
        match r {
            Some((x, q)) => spec_tile(cs@, p as int) == Some((x, q as int)) && q <= cs@.len(),
            None => spec_tile(cs@, p as int) is None,
        },
{
    match word(cs, p, false) {
        Some((a, e)) => match tile_at(cs, a, e) {
            Some(x) => {
                return Some((x, e));
            },
            None => {},
        },
        None => {},
    }
    if matches_at(cs, p, &['k', 'i', 'n', 'd']) {
        match word(cs, skip(cs, p + 4), false) {
            Some((a, e)) => match tile_at(cs, a, e) {
                Some(x) => {
                    return Some((x, e));
                },
                None => {},
            },
            None => {},
        }
    }
    None
}

fn value<F: Fn(&str) -> Option<MaterialLimit>>(cs: &Vec<char>, p: usize, f: &F) -> (r: Option<(Value, usize)>)
    requires
        p <= cs@.len(),
        reads_by_text(*f),
    ensures
        match r {
            Some((x, q)) => spec_value(cs@, p as int, limit_reader(*f)) == Some((value_model(x), q as int)) && q <= cs@.len(),
            None => spec_value(cs@, p as int, limit_reader(*f)) is None,
        },
{
    if matches_at(cs, p, &['i', 't', 'e', 'm']) {
        match item(cs, skip(cs, p + 4), f) {
            Some((i, q)) => {
                return Some((Value::Item(i), q));
            },
            None => {},
        }
    }
    if matches_at(cs, p, &['p', 'r', 'o', 'p', 'e', 'r', 't', 'y']) {
        match word(cs, skip(cs, p + 8), false) {
            Some((_, e)) => {
                return Some((Value::Property(Property::Test), e));
            },
            None => {},
        }
    }
    if matches_at(cs, p, &['t', 'i', 'l', 'e']) {
        match tile(cs, skip(cs, p + 4)) {
            Some((t, q)) => {
                return Some((Value::Tile(Tile::Kind(t)), q));
            },
            None => {},
        }
    }
    if matches_at(cs, p, &['f', 'o', 'l', 'i', 'a', 'g', 'e']) {
        match foliage(cs, skip(cs, p + 7)) {
            Some((x, q)) => {
                return Some((Value::Foliage(x), q));
            },
            None => {},
        }
    }
    None
}

fn op_value_at<F: Fn(&str) -> Option<MaterialLimit>>(cs: &Vec<char>, p: usize, f: &F) -> (r: Option<(Operator, Value, usize)>)
    requires
        p <= cs@.len(),
        reads_by_text(*f),
    ensures
        match r {
            Some((op, x, q)) => op_value(cs@, p as int, limit_reader(*f)) == Some((op, value_model(x), q as int)) && q <= cs@.len(),
            None => op_value(cs@, p as int, limit_reader(*f)) is None,
        },
{
    match operator(cs, p) {
        Some((op, p1)) => match value(cs, skip(cs, p1), f) {
            Some((v, q)) => Some((op, v, q)),
            None => None,
        },
        None => None,
    }
}

fn condition<F: Fn(&str) -> Option<MaterialLimit>>(cs: &Vec<char>, p: usize, f: &F) -> (r: Option<(Condition, usize)>)
    requires
        p <= cs@.len(),
        reads_by_text(*f),
    ensures
        match r {
            Some((x, q)) => spec_condition(cs@, p as int, limit_reader(*f)) == Some((condition_model(x), q as int)) && q <= cs@.len(),
            None => spec_condition(cs@, p as int, limit_reader(*f)) is None,
        },
{
    match subject(cs, p) {
        Some((subject, p1)) => match op_value_at(cs, skip(cs, p1), f) {
            Some((op, v, q)) => {
                return Some((Condition { subject, op, value: v }, q));
            },
            None => {},
        },
        None => {},
    }
    match op_value_at(cs, p, f) {
        Some((op, v, q)) => Some((Condition { subject: Subject::Me, op, value: v }, q)),
        None => None,
    }
}

fn condition_set<F: Fn(&str) -> Option<MaterialLimit>>(cs: &Vec<char>, p: usize, f: &F) -> (r: Option<(ConditionSet, usize)>)
    requires
        p <= cs@.len(),
        reads_by_text(*f),
    ensures
        match r {
            Some((x, q)) => spec_condition_set(cs@, p as int, limit_reader(*f)) == Some((set_model(x), q as int)) && q <= cs@.len(),
            None => spec_condition_set(cs@, p as int, limit_reader(*f)) is None,
        },
    decreases cs@.len() - p, 0int,
{
    match condition(cs, p, f) {
        None => None,
        Some((c, p1)) => {
            let p2 = skip(cs, p1);
            match set_operator(cs, p2) {
                Some((op, p3)) => {
                    let p4 = skip(cs, p3);
                    if p < p4 && p4 <= cs.len() {
                        match statement(cs, p4, f) {
                            Some((rest, p5)) => {
                                return Some((ConditionSet { left: c, right: Some(ConditionRight { op, set: Box::new(rest) }) }, p5));
                            },
                            None => {},
                        }
                    }
                },
                None => {},
            }
            Some((ConditionSet { left: c, right: None }, p1))
        },
    }
}

fn statement<F: Fn(&str) -> Option<MaterialLimit>>(cs: &Vec<char>, p: usize, f: &F) -> (r: Option<(ConditionSet, usize)>)
    requires
        p <= cs@.len(),
        reads_by_text(*f),
    ensures
        match r {
            Some((x, q)) => spec_statement(cs@, p as int, limit_reader(*f)) == Some((set_model(x), q as int)) && q <= cs@.len(),
            None => spec_statement(cs@, p as int, limit_reader(*f)) is None,
        },
    decreases cs@.len() - p, 1int,
{
    if matches_at(cs, p, &['(']) {
        proof {
            assert(['(']@ =~= seq!['(']);
        }
        let q = skip(cs, p + 1);
        if p < q {
            match condition_set(cs, q, f) {
                Some((v, p2)) => {
                    let p3 = skip(cs, p2);
                    proof {
                        assert([')']@ =~= seq![')']);
                    }
                    if matches_at(cs, p3, &[')']) {
                        return Some((v, p3 + 1));
                    }
                },
                None => {},
            }
        }
    }
    proof {
        assert(['(']@ =~= seq!['(']);
        assert([')']@ =~= seq![')']);
    }
    condition_set(cs, p, f)
}

/// Reads the chain of conditions `input` spells out, see `spec_parse`;
/// `limits` reads each written material limit, given in `to_ron_case`.
pub fn to_condition_set<F: Fn(&str) -> Option<MaterialLimit>>(input: &str, limits: &F) -> (r: Result<ConditionSet, ConditionParseError>)
    requires
        reads_by_text(*limits),
    ensures
        match r {
            Ok(x) => spec_parse(input@, limit_reader(*limits)) == Some(set_model(x)),
            Err(ConditionParseError::NoStatement) => spec_statement(input@, 0, limit_reader(*limits)) is None,
            Err(ConditionParseError::TrailingInput(e)) => spec_statement(input@, 0, limit_reader(*limits)) matches Some((_, q))
                && q == e && e != input@.len(),
        },
        r is Err <==> spec_parse(input@, limit_reader(*limits)) is None,
{
    let cs = chars_of(input);
    match statement(&cs, 0, limits) {
        Some((v, e)) => if e == cs.len() {
            Ok(v)
        } else {
            Err(ConditionParseError::TrailingInput(e))
        },
        None => Err(ConditionParseError::NoStatement),
    }
}

/// A chain of conditions as a definition writes it, and what it reads as
/// once parsed. Two references are equal when their texts are.
#[derive(Debug, Clone)]
pub struct ConditionSetRef {
    string: String,
    condition: Option<Box<ConditionSet>>,
}

impl ConditionSetRef {
    /// The text of the chain.
    pub closed spec fn text(&self) -> Seq<char> {
        self.string@
    }

    /// What the chain read as when it was last parsed, if it was.
    pub closed spec fn parsed(&self) -> Option<SetModel> {
        match self.condition {
            Some(c) => Some(set_model(*c)),
            None => None,
        }
    }

    /// The chain written `string`, not yet parsed.
    pub fn new(string: &str) -> (r: ConditionSetRef)
        ensures
            r.text() == string@,
            r.parsed() is None,
    {
        ConditionSetRef { string: string.to_owned(), condition: None }
    }

    /// The text of the chain.
    pub fn as_str(&self) -> (r: &str)
        ensures
            r@ == self.text(),
    {
        self.string.as_str()
    }

    /// Parses the text, see `to_condition_set`, and keeps what it reads as.
    /// A text that does not parse leaves what was kept before.
    pub fn parse<F: Fn(&str) -> Option<MaterialLimit>>(&mut self, limits: &F) -> (r: Result<(), ConditionParseError>)
        requires
            reads_by_text(*limits),
        ensures
            final(self).text() == old(self).text(),
            match spec_parse(old(self).text(), limit_reader(*limits)) {
                Some(m) => r is Ok && final(self).parsed() == Some(m),
                None => r is Err && final(self).parsed() == old(self).parsed(),
            },
    {
        match to_condition_set(self.string.as_str(), limits) {
            Ok(set) => {
                self.condition = Some(Box::new(set));
                Ok(())
            },
            Err(e) => Err(e),
        }
    }

    /// What the chain read as when it was last parsed, if it was.
    pub fn condition(&self) -> (r: Option<&ConditionSet>)
        ensures
            match r {
                Some(c) => self.parsed() == Some(set_model(*c)),
                None => self.parsed() is None,
            },
    {
        match &self.condition {
            Some(c) => Some(&**c),
            None => None,
        }
    }
}

impl PartialEq for ConditionSetRef {
    fn eq(&self, other: &Self) -> (r: bool) {
        self.string == other.string
    }
}

impl vstd::std_specs::cmp::PartialEqSpecImpl for ConditionSetRef {
    open spec fn obeys_eq_spec() -> bool {
        true
    }

    open spec fn eq_spec(&self, other: &Self) -> bool {
        self.text() == other.text()
    }
}

} // verus!

verus! {

/// A chain joins its first condition to the rest by the character written
/// after that condition: `&` joins by and, `|` by or.
pub proof fn lemma_join_follows_text(s: Seq<char>, p: int, lim: spec_fn(Seq<char>) -> Option<MaterialLimit>)
    requires
        spec_condition_set(s, p, lim) matches Some((m, _)) && m.right is Some,
    ensures
        ({
            let m = spec_condition_set(s, p, lim).unwrap().0;
            let op = m.right.unwrap().op;
            let j = skip_ws(s, spec_condition(s, p, lim).unwrap().1);
            &&& 0 <= j < s.len()
            &&& s[j] == '&' || s[j] == '|'
            &&& op == Operator::And <==> s[j] == '&'
            &&& op == Operator::Or <==> s[j] == '|'
        }),
{
    let p1 = spec_condition(s, p, lim).unwrap().1;
    let j = skip_ws(s, p1);
    let w = s.subrange(j, j + 1);
    if lit(s, j, seq!['|']) {
        assert(w[0] == s[j]);
        assert(seq!['|'][0] == '|');
    } else {
        assert(lit(s, j, seq!['&']));
        assert(w[0] == s[j]);
        assert(seq!['&'][0] == '&');
    }
}

/// A whole text that is not in parentheses and reads as a chain of more
/// than one condition is joined, after its first condition, by the
/// character written there: `&` by and, `|` by or.
pub proof fn lemma_parse_join_follows_text(s: Seq<char>, lim: spec_fn(Seq<char>) -> Option<MaterialLimit>)
    requires
        spec_parse(s, lim) matches Some(m) && m.right is Some,
        !(s.len() > 0 && s[0] == '('),
    ensures
        ({
            let op = spec_parse(s, lim).unwrap().right.unwrap().op;
            let j = skip_ws(s, spec_condition(s, 0, lim).unwrap().1);
            &&& 0 <= j < s.len()
            &&& op == Operator::And <==> s[j] == '&'
            &&& op == Operator::Or <==> s[j] == '|'
        }),
{
    if lit(s, 0, seq!['(']) {
        assert(s.subrange(0, 1)[0] == s[0]);
        assert(seq!['('][0] == '(');
    }
    assert(spec_statement(s, 0, lim) == spec_condition_set(s, 0, lim));
    lemma_join_follows_text(s, 0, lim);
}

} // verus!

//! Items: their properties, kinds and abilities, their definitions and the
//! components that place them.
use vstd::prelude::*;
use crate::components::Entity;
use crate::data::DimensionsVec;
use crate::defs::{Definition, DefinitionDetails, DefinitionStorage, ItemDefinitionId};
use crate::defs::material::MaterialLimit;
use crate::defs::needs::ProvidesNutrition;
use crate::math::Vec3i;
use crate::util::FreeList;

verus! {

/// A property an item can have.
#[derive(Debug, Clone, Copy, Hash, PartialEq, Eq, Structural)]
pub enum ItemProperty {
    IsEdible,
    IsFlammable,
}

impl ItemProperty {
    /// The flag of the property in a set of properties.
    pub open spec fn spec_bits(self) -> u32 {
        match self {
            ItemProperty::IsEdible => 0x8000_0000,
            ItemProperty::IsFlammable => 0x4000_0000,
        }
    }

    pub fn bits(self) -> (r: u32)
        ensures
            r == self.spec_bits(),
    {
        match self {
            ItemProperty::IsEdible => 0x8000_0000,
            ItemProperty::IsFlammable => 0x4000_0000,
        }
    }
}

/// A set of item properties, one flag each.
#[derive(Debug, Clone, Copy, Hash, PartialEq, Eq, Structural)]
pub struct ItemProperties {
    pub bits: u32,
}

impl ItemProperties {
    /// The set with no property.
    pub fn empty() -> (r: ItemProperties)
        ensures
            r.bits == 0,
    {
        ItemProperties { bits: 0 }
    }

    /// Whether `property` is in the set.
    pub fn contains(&self, property: ItemProperty) -> (r: bool)
        ensures
            r == (self.bits & property.spec_bits() == property.spec_bits()),
    {
        let b = property.bits();
        self.bits & b == b
    }

    /// The set with `property` added.
    pub fn insert(&mut self, property: ItemProperty)
        ensures
            final(self).bits == old(self).bits | property.spec_bits(),
    {
        self.bits = self.bits | property.bits();
    }
}

/// Adding a property puts it in the set.
pub proof fn lemma_insert_contains(bits: u32, property: ItemProperty)
    ensures
        (bits | property.spec_bits()) & property.spec_bits() == property.spec_bits(),
{
    let b = property.spec_bits();
    assert((bits | b) & b == b) by (bit_vector);
}

/// What an item is used as. `Other` is the default.
#[derive(Debug, Clone, Copy, Hash, PartialEq, Eq, Structural)]
pub enum ItemKind {
    Weapon,
    Tool,
    Stone,
    Wood,
    Trash,
    Apparel,
    Food,
    Other,
}

impl ItemKind {
    pub fn default() -> (r: ItemKind)
        ensures
            r == ItemKind::Other,
    {
        ItemKind::Other
    }

    /// The bit of the kind in a set of kinds.
    pub open spec fn spec_bit(self) -> u32 {
        match self {
            ItemKind::Weapon => 0x8000_0000u32,
            ItemKind::Tool => 0x4000_0000u32,
            ItemKind::Stone => 0x2000_0000u32,
            ItemKind::Wood => 0x1000_0000u32,
            ItemKind::Trash => 0x0800_0000u32,
            ItemKind::Apparel => 0x0400_0000u32,
            ItemKind::Food => 0x0200_0000u32,
            ItemKind::Other => 0x0000_0001u32,
        }
    }

    /// The bit of the kind in a set of kinds.
    pub fn bit(self) -> (r: u32)
        ensures
            r == self.spec_bit(),
    {
        match self {
            ItemKind::Weapon => 0x8000_0000u32,
            ItemKind::Tool => 0x4000_0000u32,
            ItemKind::Stone => 0x2000_0000u32,
            ItemKind::Wood => 0x1000_0000u32,
            ItemKind::Trash => 0x0800_0000u32,
            ItemKind::Apparel => 0x0400_0000u32,
            ItemKind::Food => 0x0200_0000u32,
            ItemKind::Other => 0x0000_0001u32,
        }
    }
}

/// A set of item kinds, one bit each.
#[derive(Debug, Clone, Copy, PartialEq, Eq, Hash, Structural)]
pub struct ItemKinds {
    pub bits: u32,
}

/// Kinds have bits of their own.
proof fn lemma_kind_bits(a: ItemKind, b: ItemKind, bits: u32)
    ensures
        (bits | a.spec_bit()) & a.spec_bit() != 0,
        a != b ==> ((bits | a.spec_bit()) & b.spec_bit() != 0 <==> bits & b.spec_bit() != 0),
        0u32 & a.spec_bit() == 0,
{
    let x = a.spec_bit();
    let y = b.spec_bit();
    assert(x != 0);
    assert((bits | x) & x != 0) by (bit_vector) requires x != 0;
    assert(0u32 & x == 0) by (bit_vector);
    if a != b {
        assert(x != y);
        assert(x & y == 0) by (bit_vector)
            requires
                x != y,
                x == 0x8000_0000u32 || x == 0x4000_0000u32 || x == 0x2000_0000u32 || x == 0x1000_0000u32
                    || x == 0x0800_0000u32 || x == 0x0400_0000u32 || x == 0x0200_0000u32 || x == 1u32,
                y == 0x8000_0000u32 || y == 0x4000_0000u32 || y == 0x2000_0000u32 || y == 0x1000_0000u32
                    || y == 0x0800_0000u32 || y == 0x0400_0000u32 || y == 0x0200_0000u32 || y == 1u32,
        ;
        assert((bits | x) & y != 0 <==> bits & y != 0) by (bit_vector) requires x & y == 0;
    }
}

impl ItemKinds {
    /// The kinds in the set.
    pub open spec fn spec_contains(self, kind: ItemKind) -> bool {
        self.bits & kind.spec_bit() != 0
    }

    /// The set without kinds.
    pub fn empty() -> (r: ItemKinds)
        ensures
            forall|k: ItemKind| !#[trigger] r.spec_contains(k),
    {
        proof {
            assert forall|k: ItemKind| !#[trigger] (ItemKinds { bits: 0 }).spec_contains(k) by {
                lemma_kind_bits(k, k, 0);
            }
        }
        ItemKinds { bits: 0 }
    }

    /// Whether `kind` is in the set.
    pub fn contains(&self, kind: ItemKind) -> (r: bool)
        ensures
            r == self.spec_contains(kind),
    {
        self.bits & kind.bit() != 0
    }

    /// Adds `kind` to the set.
    pub fn insert(&mut self, kind: ItemKind)
        ensures
            final(self).spec_contains(kind),
            forall|k: ItemKind| k != kind ==> (#[trigger] final(self).spec_contains(k) == old(self).spec_contains(k)),
    {
        let old_bits = self.bits;
        self.bits = self.bits | kind.bit();
        proof {
            lemma_kind_bits(kind, kind, old_bits);
            assert forall|k: ItemKind| k != kind implies (#[trigger] self.spec_contains(k) == old(self).spec_contains(k)) by {
                lemma_kind_bits(kind, k, old_bits);
            }
        }
    }
}

/// Work an item can be used for.
#[derive(Debug, Clone, Copy, Hash, PartialEq, Eq, Structural)]
pub enum ItemAbilityKind {
    Digging,
    Chopping,
    Hammering,
    Cutting,
    Sawing,
}

/// An ability of an item and how well it serves. Two abilities are equal
/// when they are of the same kind.
#[derive(Debug, Copy, Clone)]
pub struct ItemAbility {
    pub kind: ItemAbilityKind,
    pub quality: u32,
}

impl ItemAbility {
    pub fn new(kind: ItemAbilityKind, quality: u32) -> (r: ItemAbility)
        ensures
            r.kind == kind,
            r.quality == quality,
    {
        ItemAbility { kind, quality }
    }
}

impl PartialEq for ItemAbility {
    fn eq(&self, other: &Self) -> (r: bool) {
        self.kind == other.kind
    }
}

impl vstd::std_specs::cmp::PartialEqSpecImpl for ItemAbility {
    open spec fn obeys_eq_spec() -> bool {
        true
    }

    open spec fn eq_spec(&self, other: &Self) -> bool {
        self.kind == other.kind
    }
}

impl From<ItemAbilityKind> for ItemAbility {
    fn from(other: ItemAbilityKind) -> (r: ItemAbility) {
        ItemAbility { kind: other, quality: 0 }
    }
}

impl vstd::std_specs::convert::FromSpecImpl<ItemAbilityKind> for ItemAbility {
    open spec fn obeys_from_spec() -> bool {
        true
    }

    open spec fn from_spec(other: ItemAbilityKind) -> ItemAbility {
        ItemAbility { kind: other, quality: 0 }
    }
}

/// The kinds of extension an item definition can carry.
#[derive(Debug, Clone, Copy, Hash, PartialEq, Eq, Structural)]
pub enum ItemExtensionKind {
    Container,
}

/// An extension of an item definition: a container of some capacity.
#[derive(Debug, Clone, Copy, Hash, PartialEq, Eq, Structural)]
pub enum ItemExtension {
    Container { capacity: DimensionsVec },
}

impl ItemExtension {
    pub open spec fn spec_kind(self) -> ItemExtensionKind {
        match self {
            ItemExtension::Container { .. } => ItemExtensionKind::Container,
        }
    }

    pub fn kind(&self) -> (r: ItemExtensionKind)
        ensures
            r == self.spec_kind(),
    {
        match self {
            ItemExtension::Container { .. } => ItemExtensionKind::Container,
        }
    }
}

/// The quality and durability of an item.
#[derive(Debug, Copy, Clone, Eq, PartialEq, Hash, Structural)]
pub struct ItemStatusComponent {
    quality: u32,
    durability: u32,
}

impl ItemStatusComponent {
    pub closed spec fn spec_quality(&self) -> u32 {
        self.quality
    }

    pub closed spec fn spec_durability(&self) -> u32 {
        self.durability
    }

    /// Quality 100, durability 1000.
    pub fn default() -> (r: ItemStatusComponent)
        ensures
            r.spec_quality() == 100,
            r.spec_durability() == 1000,
    {
        ItemStatusComponent { quality: 100, durability: 1000 }
    }
}

/// An item: what it may be made of, what it can do, what it is, and its
/// size and weight.
pub struct ItemDefinition {
    pub details: DefinitionDetails,
    pub id: ItemDefinitionId,
    pub material_limits: Vec<MaterialLimit>,
    pub abilities: Vec<ItemAbility>,
    pub properties: ItemProperties,
    pub kind: ItemKind,
    pub base_status: ItemStatusComponent,
    pub extensions: Vec<ItemExtension>,
    pub dimensions: DimensionsVec,
    pub weight: u64,
    pub nutrition: ProvidesNutrition,
}

impl Definition for ItemDefinition {
    open spec fn spec_name(&self) -> Seq<char> {
        self.details.spec_name()
    }

    open spec fn spec_id(&self) -> usize {
        self.id.0
    }

    fn name(&self) -> (r: &str) {
        self.details.name()
    }

    fn set_id(&mut self, id: usize) {
        self.id = ItemDefinitionId(id);
    }
}

impl ItemDefinition {
    /// The weight of an item whose definition gives none.
    pub fn default_weight() -> (r: u64)
        ensures
            r == 10,
    {
        10
    }

    /// Whether the item has an extension of kind `variant`.
    pub fn has_extension(&self, variant: ItemExtensionKind) -> (r: bool)
        ensures
            r == exists|i: int| 0 <= i < self.extensions@.len() && #[trigger] self.extensions@[i].spec_kind() == variant,
    {
        let mut i: usize = 0;
        while i < self.extensions.len()
            invariant
                i <= self.extensions@.len(),
                forall|j: int| 0 <= j < i ==> #[trigger] self.extensions@[j].spec_kind() != variant,
            decreases self.extensions@.len() - i,
        {
            if self.extensions[i].kind() == variant {
                return true;
            }
            i = i + 1;
        }
        false
    }

    /// The first extension of kind `variant`.
    pub fn get_extension(&self, variant: ItemExtensionKind) -> (r: Option<&ItemExtension>)
        ensures
            match r {
                Some(e) => exists|i: int|
                    0 <= i < self.extensions@.len() && *e == self.extensions@[i]
                        && e.spec_kind() == variant && forall|j: int|
                        0 <= j < i ==> #[trigger] self.extensions@[j].spec_kind() != variant,
                None => forall|j: int|
                    0 <= j < self.extensions@.len() ==> #[trigger] self.extensions@[j].spec_kind() != variant,
            },
    {
        let mut i: usize = 0;
        while i < self.extensions.len()
            invariant
                i <= self.extensions@.len(),
                forall|j: int| 0 <= j < i ==> #[trigger] self.extensions@[j].spec_kind() != variant,
            decreases self.extensions@.len() - i,
        {
            if self.extensions[i].kind() == variant {
                return Some(&self.extensions[i]);
            }
            i = i + 1;
        }
        None
    }

    /// Whether the item has an ability of the same kind as `ability`.
    pub fn has_ability(&self, ability: ItemAbilityKind) -> (r: bool)
        ensures
            r == exists|i: int| 0 <= i < self.abilities@.len() && #[trigger] self.abilities@[i].kind == ability,
    {
        let wanted = ItemAbility::from(ability);
        let mut i: usize = 0;
        while i < self.abilities.len()
            invariant
                i <= self.abilities@.len(),
                wanted.kind == ability,
                forall|j: int| 0 <= j < i ==> #[trigger] self.abilities@[j].kind != ability,
            decreases self.abilities@.len() - i,
        {
            if self.abilities[i] == wanted {
                return true;
            }
            i = i + 1;
        }
        false
    }
}

/// Places an entity as an item of a definition.
#[derive(Debug, Clone, Copy, PartialEq, Eq, Hash, Structural)]
pub struct ItemComponent {
    pub def: ItemDefinitionId,
}

impl ItemComponent {
    /// The item's definition.
    pub fn fetch<'a>(&self, storage: &'a DefinitionStorage<ItemDefinition>) -> (r: &'a ItemDefinition)
        requires
            self.def.0 < storage.defs().len(),
        ensures
            *r == storage.defs()[self.def.0 as int],
    {
        match storage.get(self.def.0) {
            Some(d) => d,
            None => {
                proof {
                    assert(false);
                }
                storage.get(0).unwrap()
            },
        }
    }
}

/// Points an item at the stockpile holding it.
#[derive(Debug, Clone, Copy, PartialEq, Eq, Hash, Structural)]
pub struct StockpileItemChildComponent {
    pub parent: Entity,
}

/// Points a tile entity at the stockpile it belongs to.
#[derive(Debug, Clone, Copy, PartialEq, Eq, Hash, Structural)]
pub struct StockpileTileChildComponent {
    pub parent: Entity,
}

/// A stockpile: its tiles, free or taken, the kinds of items it stores,
/// the items in it and the entities standing for its tiles.
pub struct StockpileComponent {
    pub tiles: FreeList,
    pub stores: ItemKinds,
    pub contains: Vec<Entity>,
    pub children_tiles: Vec<Entity>,
}

impl StockpileComponent {
    /// A stockpile of `tiles`, all free, storing the kinds `stores`, empty.
    pub fn new(stores: ItemKinds, tiles: Vec<Vec3i>) -> (r: StockpileComponent)
        ensures
            r.stores == stores,
            r.tiles.wf(),
            r.tiles.spec_free() == tiles@,
            r.tiles.spec_consumed() == Set::<Vec3i>::empty(),
            r.contains@.len() == 0,
            r.children_tiles@.len() == 0,
    {
        let n = tiles.len();
        StockpileComponent {
            contains: Vec::with_capacity(n),
            children_tiles: Vec::with_capacity(n),
            stores,
            tiles: FreeList::from_items(tiles),
        }
    }
}

} // verus!

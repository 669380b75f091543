//! Map tiles: their kind, flags and the liquid they hold.
use vstd::prelude::*;
use crate::defs::{BuildingDefinitionId, MaterialDefinitionId};

verus! {

#[derive(Debug, Clone, Copy, PartialEq, Eq, Hash, Structural)]
pub enum TileKind {
    Empty,
    Floor,
    RampUpNorth,
    RampUpSouth,
    RampUpEast,
    RampUpWest,
    Building,
    Solid,
}

/// Flags of a tile, one bit each.
#[derive(Debug, Clone, Copy, PartialEq, Eq, Hash, Structural)]
pub struct TileFlag {
    pub bits: u8,
}

/// The bit of `TileFlag::has_z_transition`, shared with `TileFlag::clear_floor`.
pub open spec fn z_transition_bit() -> u8 {
    0b0100_0000u8
}

impl TileFlag {
    /// The tile connects to the level above or below it.
    pub fn has_z_transition() -> (r: TileFlag)
        ensures
            r.bits == z_transition_bit(),
    {
        TileFlag { bits: 0b0100_0000u8 }
    }

    /// The floor of the tile was cleared; the same bit as `has_z_transition`.
    pub fn clear_floor() -> (r: TileFlag)
        ensures
            r.bits == z_transition_bit(),
    {
        TileFlag { bits: 0b0100_0000u8 }
    }

    pub fn empty() -> (r: TileFlag)
        ensures
            r.bits == 0,
    {
        TileFlag { bits: 0 }
    }

    pub fn contains(&self, other: TileFlag) -> (r: bool)
        ensures
            r == (self.bits & other.bits == other.bits),
    {
        self.bits & other.bits == other.bits
    }

    pub fn insert(&mut self, other: TileFlag)
        ensures
            final(self).bits == old(self).bits | other.bits,
    {
        self.bits = self.bits | other.bits;
    }

    pub fn remove(&mut self, other: TileFlag)
        ensures
            final(self).bits == old(self).bits & !other.bits,
    {
        self.bits = self.bits & !other.bits;
    }
}

/// Liquid standing on a tile.
#[derive(Debug, Clone, Copy, PartialEq, Eq, Structural)]
pub struct TileLiquid {
    pub material: MaterialDefinitionId,
    pub depth: u8,
}

/// The building a tile belongs to.
#[derive(Debug, Clone, Copy, PartialEq, Eq, Structural)]
pub struct BuildingComponent {
    pub def: BuildingDefinitionId,
}

/// A tile of the map. Two tiles compare equal when their materials are
/// equal; a copy leaves out the liquid and the building.
#[derive(Debug)]
pub struct Tile {
    pub material: u16,
    pub flags: TileFlag,
    pub kind: TileKind,
    pub liquid: Option<TileLiquid>,
    pub building: Option<BuildingComponent>,
}

impl Clone for Tile {
    fn clone(&self) -> (r: Self)
        ensures
            r == tile_copy(*self),
    {
        Tile { material: self.material, flags: self.flags, kind: self.kind, liquid: None, building: None }
    }
}

impl PartialEq for Tile {
    fn eq(&self, rhv: &Self) -> (r: bool) {
        self.material == rhv.material
    }
}

impl vstd::std_specs::cmp::PartialEqSpecImpl for Tile {
    open spec fn obeys_eq_spec() -> bool {
        true
    }

    open spec fn eq_spec(&self, rhv: &Self) -> bool {
        self.material == rhv.material
    }
}

/// A tile as the map records it among its changes: without liquid or building.
pub open spec fn tile_copy(t: Tile) -> Tile {
    Tile { material: t.material, flags: t.flags, kind: t.kind, liquid: None, building: None }
}

/// The liquid left after taking `depth` from `l`.
pub open spec fn spec_drained(l: Option<TileLiquid>, depth: u8) -> Option<TileLiquid> {
    match l {
        Some(x) => if x.depth > depth {
            Some(TileLiquid { material: x.material, depth: (x.depth - depth) as u8 })
        } else {
            None
        },
        None => None,
    }
}

/// The liquid of a tile after `Tile::add_liquid(material, depth)`.
pub open spec fn spec_add_liquid(l: Option<TileLiquid>, material: MaterialDefinitionId, depth: u8) -> Option<TileLiquid> {
    Some(match l {
        Some(x) => TileLiquid {
            material: x.material,
            depth: if x.depth + depth <= u8::MAX { (x.depth + depth) as u8 } else { x.depth },
        },
        None => TileLiquid { material, depth },
    })
}

/// Taking away the liquid just added gives back what the tile held, when
/// the sum fit and the tile held some, or when nothing was added to an
/// empty tile's nothing.
pub proof fn lemma_add_then_remove_liquid(l: Option<TileLiquid>, material: MaterialDefinitionId, depth: u8)
    requires
        l matches Some(x) ==> x.depth > 0 && x.depth + depth <= u8::MAX,
        l is None ==> depth == 0,
    ensures
        spec_drained(spec_add_liquid(l, material, depth), depth) == l,
{
}

/// The depth of liquid on a tile, 0 when it holds none.
pub open spec fn spec_liquid_depth(t: Tile) -> u8 {
    match t.liquid {
        Some(l) => l.depth,
        None => 0,
    }
}

impl Tile {
    pub open spec fn spec_is_empty(self) -> bool {
        self.kind == TileKind::Empty
    }

    pub open spec fn spec_is_walkable(self) -> bool {
        self.kind != TileKind::Empty && self.kind != TileKind::Solid
    }

    pub open spec fn spec_is_solid(self) -> bool {
        self.kind != TileKind::Empty && self.kind != TileKind::Floor
    }

    /// An empty tile of material 0, without flags, liquid or building.
    pub fn default() -> (r: Tile)
        ensures
            r.material == 0,
            r.flags.bits == 0,
            r.kind == TileKind::Empty,
            r.liquid is None,
            r.building is None,
    {
        Tile { material: 0, flags: TileFlag::empty(), kind: TileKind::Empty, liquid: None, building: None }
    }

    /// Adds `depth` of liquid; a tile already holding liquid (of the same
    /// material) keeps its depth when the sum would not fit a `u8`.
    pub fn add_liquid(&mut self, material: MaterialDefinitionId, depth: u8)
        requires
            old(self).liquid matches Some(l) ==> l.material == material,
        ensures
            final(self).material == old(self).material,
            final(self).flags == old(self).flags,
            final(self).kind == old(self).kind,
            final(self).building == old(self).building,
            final(self).liquid == spec_add_liquid(old(self).liquid, material, depth),
    {
        match self.liquid {
            Some(l) => {
                let d = match l.depth.checked_add(depth) {
                    Some(v) => v,
                    None => l.depth,
                };
                self.liquid = Some(TileLiquid { material: l.material, depth: d });
            },
            None => {
                self.liquid = Some(TileLiquid { material, depth });
            },
        }
    }

    /// Removes up to `depth` of liquid, dropping the liquid when none is
    /// left. Returns whether the tile held liquid.
    pub fn remove_liquid(&mut self, depth: u8) -> (r: bool)
        ensures
            r == (old(self).liquid is Some),
            final(self).material == old(self).material,
            final(self).flags == old(self).flags,
            final(self).kind == old(self).kind,
            final(self).building == old(self).building,
            final(self).liquid == spec_drained(old(self).liquid, depth),
    {
        match self.liquid {
            Some(l) => {
                let d = l.depth.saturating_sub(depth);
                if d == 0 {
                    self.liquid = None;
                } else {
                    self.liquid = Some(TileLiquid { material: l.material, depth: d });
                }
                true
            },
            None => false,
        }
    }

    pub fn make_empty(&mut self)
        ensures
            final(self).kind == TileKind::Empty,
            final(self).material == 0,
            final(self).flags == old(self).flags,
            final(self).liquid == old(self).liquid,
            final(self).building == old(self).building,
    {
        self.kind = TileKind::Empty;
        self.material = 0;
    }

    pub fn make_ramp(&mut self, kind: TileKind)
        ensures
            final(self).kind == kind,
            final(self).flags.bits == old(self).flags.bits | z_transition_bit(),
            final(self).material == old(self).material,
            final(self).liquid == old(self).liquid,
            final(self).building == old(self).building,
    {
        self.kind = kind;
        self.flags.insert(TileFlag::has_z_transition());
    }

    pub fn make_floor(&mut self)
        ensures
            final(self).kind == TileKind::Floor,
            final(self).flags.bits == old(self).flags.bits & !z_transition_bit(),
            final(self).material == old(self).material,
            final(self).liquid == old(self).liquid,
            final(self).building == old(self).building,
    {
        self.kind = TileKind::Floor;
        self.flags.remove(TileFlag::clear_floor());
    }

    /// The cost of walking onto the tile, `None` when it cannot be walked.
    pub fn movement_cost(&self) -> (r: Option<u32>)
        ensures
            r == (if self.spec_is_walkable() { Some(100u32) } else { None }),
    {
        if self.is_walkable() {
            Some(100)
        } else {
            None
        }
    }

    pub fn is_solid(&self) -> (r: bool)
        ensures
            r == self.spec_is_solid(),
    {
        self.kind != TileKind::Empty && self.kind != TileKind::Floor
    }

    pub fn is_walkable(&self) -> (r: bool)
        ensures
            r == self.spec_is_walkable(),
    {
        self.kind != TileKind::Empty && self.kind != TileKind::Solid
    }

    pub fn is_floor(&self) -> (r: bool)
        ensures
            r == (self.kind == TileKind::Floor),
    {
        self.kind == TileKind::Floor
    }

    pub fn is_empty(&self) -> (r: bool)
        ensures
            r == self.spec_is_empty(),
    {
        self.kind == TileKind::Empty
    }

    pub fn liquid_depth(&self) -> (r: u8)
        ensures
            r == spec_liquid_depth(*self),
    {
        match self.liquid {
            Some(l) => l.depth,
            None => 0,
        }
    }
}

} // verus!

//! Plain data shared by components and definitions: collision kinds and
//! sizes in thousandths of a tile.
use vstd::prelude::*;
use crate::math::{Vec3i, Vec3u, fits_u32};
use crate::components::DimensionsComponent;
use crate::defs::RaceDefinitionId;
use crate::defs::material::MaterialComponent;

pub mod bt;

verus! {

/// Whether an entity blocks movement. `Clear` is the default.
#[derive(Debug, Clone, Copy, PartialEq, Eq, Hash, Structural)]
pub enum CollisionKind {
    Solid,
    Clear,
}

impl CollisionKind {
    pub fn is_walkable(&self) -> (r: bool)
        ensures
            r == (*self != CollisionKind::Solid),
    {
        match self {
            CollisionKind::Solid => false,
            CollisionKind::Clear => true,
        }
    }

    pub fn default() -> (r: CollisionKind)
        ensures
            r == CollisionKind::Clear,
    {
        CollisionKind::Clear
    }
}

/// A size in thousandths of a tile along each axis.
#[derive(Debug, Clone, Copy, PartialEq, Eq, Hash, Structural)]
pub struct DimensionsVec(pub Vec3u);

/// The whole tiles a size covers, rounding down.
pub open spec fn spec_into_tiles(v: DimensionsVec) -> Vec3i {
    Vec3i { x: (v.0.x / 1000) as i32, y: (v.0.y / 1000) as i32, z: (v.0.z / 1000) as i32 }
}

/// The size of `t` whole tiles.
pub open spec fn spec_from_tiles(t: Vec3i) -> DimensionsVec {
    DimensionsVec(Vec3u { x: (t.x * 1000) as u32, y: (t.y * 1000) as u32, z: (t.z * 1000) as u32 })
}

/// A number of tiles whose size fits a `u32`.
pub open spec fn tiles_fit(t: Vec3i) -> bool {
    &&& 0 <= t.x && fits_u32(t.x * 1000)
    &&& 0 <= t.y && fits_u32(t.y * 1000)
    &&& 0 <= t.z && fits_u32(t.z * 1000)
}

/// The componentwise sum of two sizes.
pub open spec fn spec_add(a: DimensionsVec, b: DimensionsVec) -> DimensionsVec {
    DimensionsVec(Vec3u { x: (a.0.x + b.0.x) as u32, y: (a.0.y + b.0.y) as u32, z: (a.0.z + b.0.z) as u32 })
}

/// The componentwise difference of two sizes.
pub open spec fn spec_sub(a: DimensionsVec, b: DimensionsVec) -> DimensionsVec {
    DimensionsVec(Vec3u { x: (a.0.x - b.0.x) as u32, y: (a.0.y - b.0.y) as u32, z: (a.0.z - b.0.z) as u32 })
}

impl DimensionsVec {
    pub fn new(x: u32, y: u32, z: u32) -> (r: DimensionsVec)
        ensures
            r == DimensionsVec(Vec3u { x, y, z }),
    {
        DimensionsVec(Vec3u::new(x, y, z))
    }

    /// One tile along each axis.
    pub fn default() -> (r: DimensionsVec)
        ensures
            r == DimensionsVec(Vec3u { x: 1000, y: 1000, z: 1000 }),
    {
        DimensionsVec::new(1000, 1000, 1000)
    }

    /// The whole tiles the size covers, rounding down.
    pub fn into_tiles(self) -> (r: Vec3i)
        ensures
            r == spec_into_tiles(self),
    {
        Vec3i::new((self.0.x / 1000) as i32, (self.0.y / 1000) as i32, (self.0.z / 1000) as i32)
    }

    /// The size of `tiles` whole tiles.
    pub fn from_tiles(tiles: Vec3i) -> (r: DimensionsVec)
        requires
            tiles_fit(tiles),
        ensures
            r == spec_from_tiles(tiles),
    {
        DimensionsVec(Vec3u::new((tiles.x as u32) * 1000, (tiles.y as u32) * 1000, (tiles.z as u32) * 1000))
    }

    /// Componentwise sum.
    pub fn add(self, b: DimensionsVec) -> (r: DimensionsVec)
        requires
            fits_u32(self.0.x + b.0.x),
            fits_u32(self.0.y + b.0.y),
            fits_u32(self.0.z + b.0.z),
        ensures
            r == spec_add(self, b),
    {
        DimensionsVec(Vec3u::new(self.0.x + b.0.x, self.0.y + b.0.y, self.0.z + b.0.z))
    }

    /// Componentwise difference.
    pub fn sub(self, b: DimensionsVec) -> (r: DimensionsVec)
        requires
            self.0.x >= b.0.x,
            self.0.y >= b.0.y,
            self.0.z >= b.0.z,
        ensures
            r == spec_sub(self, b),
    {
        DimensionsVec(Vec3u::new(self.0.x - b.0.x, self.0.y - b.0.y, self.0.z - b.0.z))
    }
}

/// What to spawn: an item or a workshop of a material, a creature, a
/// stockpile, a plant of some size, or a pawn.
#[derive(Debug, Clone)]
pub enum SpawnArguments {
    Item { material: MaterialComponent },
    Workshop { material: MaterialComponent },
    Creature { name: Option<String> },
    Stockpile,
    Foliage { dimensions: Option<DimensionsComponent> },
    Pawn { arguments: SpawnPawnArguments },
}

/// A pawn to spawn: its name and race.
#[derive(Debug, Clone)]
pub struct SpawnPawnArguments {
    pub name: String,
    pub race: RaceDefinitionId,
}

/// Taking away a size that was added gives the first size back.
pub proof fn lemma_add_then_sub(a: DimensionsVec, b: DimensionsVec)
    requires
        fits_u32(a.0.x + b.0.x),
        fits_u32(a.0.y + b.0.y),
        fits_u32(a.0.z + b.0.z),
    ensures
        spec_sub(spec_add(a, b), b) == a,
{
}

/// A size made of whole tiles gives those tiles back.
pub proof fn lemma_tiles_round_trip(t: Vec3i)
    requires
        tiles_fit(t),
    ensures
        spec_into_tiles(spec_from_tiles(t)) == t,
{
}

impl From<Vec3u> for DimensionsVec {
    fn from(v: Vec3u) -> (r: DimensionsVec) {
        DimensionsVec(v)
    }
}

impl vstd::std_specs::convert::FromSpecImpl<Vec3u> for DimensionsVec {
    open spec fn obeys_from_spec() -> bool {
        true
    }

    open spec fn from_spec(v: Vec3u) -> DimensionsVec {
        DimensionsVec(v)
    }
}

} // verus!

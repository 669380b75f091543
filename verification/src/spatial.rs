//! The entries of the spatial maps: the box of tiles an entity covers,
//! whether it blocks movement, and how far a tile is from the box.
use vstd::prelude::*;
use crate::components::{DimensionsComponent, Entity, PositionComponent};
use crate::data::{CollisionKind, spec_into_tiles};
use crate::math::{Aabbi, Vec3i, fits_i32};

verus! {

/// The smaller of two numbers.
pub open spec fn min_i32(a: i32, b: i32) -> i32 {
    if a <= b { a } else { b }
}

/// The larger of two numbers.
pub open spec fn max_i32(a: i32, b: i32) -> i32 {
    if a <= b { b } else { a }
}

/// The box with corners `a` and `b`, its lowest corner first.
pub open spec fn corners_box(a: Vec3i, b: Vec3i) -> Aabbi {
    Aabbi {
        min: Vec3i { x: min_i32(a.x, b.x), y: min_i32(a.y, b.y), z: min_i32(a.z, b.z) },
        max: Vec3i { x: max_i32(a.x, b.x), y: max_i32(a.y, b.y), z: max_i32(a.z, b.z) },
    }
}

/// The lowest corner of `r` comes first on every axis.
pub open spec fn ordered(r: Aabbi) -> bool {
    r.min.x <= r.max.x && r.min.y <= r.max.y && r.min.z <= r.max.z
}

/// How far `v` lies outside `[lo, hi]`.
pub open spec fn outside(v: int, lo: int, hi: int) -> int {
    if v < lo { lo - v } else if v > hi { v - hi } else { 0 }
}

/// The squared distance from the box `r` to `p`; 0 inside the box.
pub open spec fn box_distance2(r: Aabbi, p: Vec3i) -> int {
    let dx = outside(p.x as int, r.min.x as int, r.max.x as int);
    let dy = outside(p.y as int, r.min.y as int, r.max.y as int);
    let dz = outside(p.z as int, r.min.z as int, r.max.z as int);
    dx * dx + dy * dy + dz * dz
}

/// The box with corners `a` and `b`, as a spatial tree's rectangle from
/// two corners is.
fn from_corners(a: Vec3i, b: Vec3i) -> (r: Aabbi)
    ensures
        r == corners_box(a, b),
        ordered(r),
{
    let min = Vec3i::new(
        if a.x <= b.x { a.x } else { b.x },
        if a.y <= b.y { a.y } else { b.y },
        if a.z <= b.z { a.z } else { b.z },
    );
    let max = Vec3i::new(
        if a.x <= b.x { b.x } else { a.x },
        if a.y <= b.y { b.y } else { a.y },
        if a.z <= b.z { b.z } else { a.z },
    );
    Aabbi::new(min, max)
}

/// An entity of a spatial map: the box of tiles it covers and whether it
/// blocks movement. Two entries are equal when their entities and boxes are.
#[derive(Debug, Clone, Copy)]
pub struct SpatialMapEntry {
    pub entity: Entity,
    pub collision: CollisionKind,
    rect: Aabbi,
}

impl SpatialMapEntry {
    /// The box the entry covers.
    pub closed spec fn spec_rect(&self) -> Aabbi {
        self.rect
    }

    /// The entity of the entry.
    pub closed spec fn spec_entity(&self) -> Entity {
        self.entity
    }

    /// Whether the entity blocks movement.
    pub closed spec fn spec_collision(&self) -> CollisionKind {
        self.collision
    }

    /// An entry covering `rect`.
    pub fn with_rect(entity: Entity, rect: Aabbi, collision: CollisionKind) -> (r: SpatialMapEntry)
        requires
            ordered(rect),
        ensures
            r.spec_entity() == entity,
            r.spec_collision() == collision,
            r.spec_rect() == rect,
    {
        SpatialMapEntry { entity, rect, collision }
    }

    /// The entry of an entity at `position` of size `dimensions`: it
    /// reaches from the position as many tiles as the entity is wide and
    /// deep, and down as many levels as it is high.
    pub fn new(entity: Entity, position: &PositionComponent, dimensions: &DimensionsComponent) -> (r: SpatialMapEntry)
        requires
            fits_i32(position.coord.x + spec_into_tiles(dimensions.current).x - 1),
            fits_i32(position.coord.y + spec_into_tiles(dimensions.current).y - 1),
            fits_i32(position.coord.z - (spec_into_tiles(dimensions.current).z - 1)),
        ensures
            r.spec_entity() == entity,
            r.spec_collision() == dimensions.collision,
            r.spec_rect() == corners_box(position.coord, Vec3i {
                x: (position.coord.x + spec_into_tiles(dimensions.current).x - 1) as i32,
                y: (position.coord.y + spec_into_tiles(dimensions.current).y - 1) as i32,
                z: (position.coord.z - (spec_into_tiles(dimensions.current).z - 1)) as i32,
            }),
    {
        let tiles = dimensions.as_tiles();
        let p = position.coord;
        let far = Vec3i::new(p.x + (tiles.x - 1), p.y + (tiles.y - 1), p.z - (tiles.z - 1));
        SpatialMapEntry { entity, rect: from_corners(p, far), collision: dimensions.collision() }
    }

    /// An entry covering the one tile `coord`.
    pub fn new_single(entity: Entity, coord: Vec3i, collision: CollisionKind) -> (r: SpatialMapEntry)
        ensures
            r.spec_entity() == entity,
            r.spec_collision() == collision,
            r.spec_rect() == (Aabbi { min: coord, max: coord }),
    {
        SpatialMapEntry { entity, rect: from_corners(coord, coord), collision }
    }

    /// The box the entry covers.
    pub fn aabb(&self) -> (r: Aabbi)
        ensures
            r == self.spec_rect(),
    {
        self.rect
    }

    /// The box the entry covers.
    pub fn rectangle(&self) -> (r: Aabbi)
        ensures
            r == self.spec_rect(),
    {
        self.rect
    }

    pub fn collision(&self) -> (r: CollisionKind)
        ensures
            r == self.spec_collision(),
    {
        self.collision
    }

    /// The lowest corner of the box.
    pub fn position(&self) -> (r: Vec3i)
        ensures
            r == self.spec_rect().min,
    {
        self.rect.min
    }

    /// How many tiles the box spans on each axis.
    pub fn dimensions(&self) -> (r: Vec3i)
        requires
            fits_i32(self.spec_rect().max.x - self.spec_rect().min.x + 1),
            fits_i32(self.spec_rect().max.y - self.spec_rect().min.y + 1),
            fits_i32(self.spec_rect().max.z - self.spec_rect().min.z + 1),
        ensures
            r.x == self.spec_rect().max.x - self.spec_rect().min.x + 1,
            r.y == self.spec_rect().max.y - self.spec_rect().min.y + 1,
            r.z == self.spec_rect().max.z - self.spec_rect().min.z + 1,
    {
        Vec3i::new(
            (self.rect.max.x as i64 - self.rect.min.x as i64 + 1) as i32,
            (self.rect.max.y as i64 - self.rect.min.y as i64 + 1) as i32,
            (self.rect.max.z as i64 - self.rect.min.z as i64 + 1) as i32,
        )
    }

    /// Whether the box holds `point`.
    pub fn contains_point(&self, point: &PositionComponent) -> (r: bool)
        ensures
            r == (self.spec_rect().min.x <= point.coord.x <= self.spec_rect().max.x
                && self.spec_rect().min.y <= point.coord.y <= self.spec_rect().max.y
                && self.spec_rect().min.z <= point.coord.z <= self.spec_rect().max.z),
    {
        let p = point.coord;
        self.rect.min.x <= p.x && p.x <= self.rect.max.x && self.rect.min.y <= p.y && p.y <= self.rect.max.y
            && self.rect.min.z <= p.z && p.z <= self.rect.max.z
    }

    /// The squared distance from the box to `point`, 0 inside it; the
    /// spatial tree computes it in `i32`.
    pub fn distance_2(&self, point: &PositionComponent) -> (r: i32)
        requires
            box_distance2(self.spec_rect(), point.coord) <= i32::MAX,
        ensures
            r == box_distance2(self.spec_rect(), point.coord),
    {
        let p = point.coord;
        let dx = gap(p.x, self.rect.min.x, self.rect.max.x);
        let dy = gap(p.y, self.rect.min.y, self.rect.max.y);
        let dz = gap(p.z, self.rect.min.z, self.rect.max.z);
        assert(0 <= dx * dx && 0 <= dy * dy && 0 <= dz * dz) by (nonlinear_arith);
        (dx * dx + dy * dy + dz * dz) as i32
    }
}

/// How far `v` lies outside `[lo, hi]`.
fn gap(v: i32, lo: i32, hi: i32) -> (r: i64)
    ensures
        r == outside(v as int, lo as int, hi as int),
{
    if v < lo {
        lo as i64 - v as i64
    } else if v > hi {
        v as i64 - hi as i64
    } else {
        0
    }
}

impl PartialEq for SpatialMapEntry {
    fn eq(&self, rhv: &Self) -> (r: bool) {
        self.entity == rhv.entity && self.rect == rhv.rect
    }
}

impl vstd::std_specs::cmp::PartialEqSpecImpl for SpatialMapEntry {
    open spec fn obeys_eq_spec() -> bool {
        true
    }

    open spec fn eq_spec(&self, rhv: &Self) -> bool {
        self.spec_entity() == rhv.spec_entity() && self.spec_rect() == rhv.spec_rect()
    }
}

} // verus!

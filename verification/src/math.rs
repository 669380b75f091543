//! Integer vector and box types used for tile coordinates and sizes.
use vstd::prelude::*;

verus! {

/// A signed 3d integer vector: a tile coordinate or a tile extent.
#[derive(Debug, Clone, Copy, PartialEq, Eq, Hash, Structural)]
pub struct Vec3i {
    pub x: i32,
    pub y: i32,
    pub z: i32,
}

/// An unsigned 3d integer vector: a size in thousandths of a tile.
#[derive(Debug, Clone, Copy, PartialEq, Eq, Hash, Structural)]
pub struct Vec3u {
    pub x: u32,
    pub y: u32,
    pub z: u32,
}

/// A signed 2d integer vector: a column of the map.
#[derive(Debug, Clone, Copy, PartialEq, Eq, Hash, Structural)]
pub struct Vec2i {
    pub x: i32,
    pub y: i32,
}

impl Vec2i {
    pub fn new(x: i32, y: i32) -> (r: Vec2i)
        ensures
            r == (Vec2i { x, y }),
    {
        Vec2i { x, y }
    }
}

/// An axis aligned box over tile coordinates, given by two corners.
#[derive(Debug, Clone, Copy, PartialEq, Eq, Hash, Structural)]
pub struct Aabbi {
    pub min: Vec3i,
    pub max: Vec3i,
}

/// True when `v` is a value of `i32`.
pub open spec fn fits_i32(v: int) -> bool {
    i32::MIN <= v <= i32::MAX
}

/// True when `v` is a value of `u32`.
pub open spec fn fits_u32(v: int) -> bool {
    0 <= v <= u32::MAX
}

impl Vec3i {
    pub fn new(x: i32, y: i32, z: i32) -> (r: Vec3i)
        ensures
            r == (Vec3i { x, y, z }),
    {
        Vec3i { x, y, z }
    }

    /// Componentwise sum.
    pub fn add(self, o: Vec3i) -> (r: Vec3i)
        requires
            fits_i32(self.x + o.x),
            fits_i32(self.y + o.y),
            fits_i32(self.z + o.z),
        ensures
            r.x == self.x + o.x,
            r.y == self.y + o.y,
            r.z == self.z + o.z,
    {
        Vec3i { x: self.x + o.x, y: self.y + o.y, z: self.z + o.z }
    }

    /// Componentwise difference.
    pub fn sub(self, o: Vec3i) -> (r: Vec3i)
        requires
            fits_i32(self.x - o.x),
            fits_i32(self.y - o.y),
            fits_i32(self.z - o.z),
        ensures
            r.x == self.x - o.x,
            r.y == self.y - o.y,
            r.z == self.z - o.z,
    {
        Vec3i { x: self.x - o.x, y: self.y - o.y, z: self.z - o.z }
    }

    /// Componentwise product.
    pub fn mul(self, o: Vec3i) -> (r: Vec3i)
        requires
            fits_i32(self.x * o.x),
            fits_i32(self.y * o.y),
            fits_i32(self.z * o.z),
        ensures
            r.x == self.x * o.x,
            r.y == self.y * o.y,
            r.z == self.z * o.z,
    {
        Vec3i { x: self.x * o.x, y: self.y * o.y, z: self.z * o.z }
    }
}

impl Vec3u {
    pub fn new(x: u32, y: u32, z: u32) -> (r: Vec3u)
        ensures
            r == (Vec3u { x, y, z }),
    {
        Vec3u { x, y, z }
    }
}

impl Aabbi {
    pub fn new(min: Vec3i, max: Vec3i) -> (r: Aabbi)
        ensures
            r.min == min,
            r.max == max,
    {
        Aabbi { min, max }
    }
}

} // verus!

//! Flattening of 3d tile coordinates into 1d storage indices.
use vstd::prelude::*;
use vstd::arithmetic::div_mod::{lemma_fundamental_div_mod, lemma_fundamental_div_mod_converse};
use vstd::arithmetic::mul::{lemma_mul_is_associative, lemma_mul_nonnegative};
use crate::math::{Vec3i, fits_i32};

verus! {

/// The most basic encoder, which strictly flattens the 3d space into 1d
/// coordinates in a linear fashion: x varies fastest, then y, then z.
#[derive(Debug, Clone, Copy)]
pub struct FlatEncoder {
    pub dimensions: Vec3i,
}

/// The linear index of `c` in a space of size `d`.
pub open spec fn spec_encode(d: Vec3i, c: Vec3i) -> int {
    c.z * d.x * d.y + c.y * d.x + c.x
}

/// The coordinate at linear index `i` in a space of size `d`.
pub open spec fn spec_decode(d: Vec3i, i: int) -> Vec3i {
    let dx = d.x as int;
    let plane = dx * d.y;
    Vec3i {
        x: ((i % plane) % dx) as i32,
        y: ((i % plane) / dx) as i32,
        z: (i / plane) as i32,
    }
}

/// Every intermediate of the encoding of `c` in `d`, computed left to
/// right in `i32`, stays in range.
pub open spec fn encode_fits(d: Vec3i, c: Vec3i) -> bool {
    &&& fits_i32(c.z * d.x)
    &&& fits_i32(c.z * d.x * d.y)
    &&& fits_i32(c.y * d.x)
    &&& fits_i32(c.z * d.x * d.y + c.y * d.x)
    &&& fits_i32(spec_encode(d, c))
}

/// The dimensions can be decoded against: positive sides whose plane
/// size is an `i32`.
pub open spec fn decodable(d: Vec3i) -> bool {
    d.x > 0 && d.y > 0 && fits_i32(d.x * d.y)
}

/// `c` lies inside a space of size `d`.
pub open spec fn in_bounds(d: Vec3i, c: Vec3i) -> bool {
    0 <= c.x < d.x && 0 <= c.y < d.y && 0 <= c.z < d.z
}

impl FlatEncoder {
    pub fn from_dimensions(dimensions: Vec3i) -> (r: FlatEncoder)
        ensures
            r.dimensions == dimensions,
    {
        FlatEncoder { dimensions }
    }

    /// The storage index of `coord`; a negative linear index is reinterpreted as a `usize`.
    pub fn encode(&self, coord: Vec3i) -> (r: usize)
        requires
            encode_fits(self.dimensions, coord),
        ensures
            r == spec_encode(self.dimensions, coord) as usize,
    {
        let d = self.dimensions;
        let v: i32 = (coord.z * d.x * d.y) + (coord.y * d.x) + coord.x;
        v as usize
    }

    /// The coordinate stored at index `idx`.
    pub fn decode(&self, idx: usize) -> (r: Vec3i)
        requires
            decodable(self.dimensions),
            idx <= i32::MAX,
        ensures
            r == spec_decode(self.dimensions, idx as int),
    {
        let d = self.dimensions;
        let i: i32 = idx as i32;
        let plane: i32 = d.x * d.y;
        proof {
            assert(plane > 0) by (nonlinear_arith)
                requires d.x > 0, d.y > 0, plane == d.x * d.y;
        }
        let z: i32 = i / plane;
        proof {
            lemma_fundamental_div_mod(i as int, plane as int);
            vstd::arithmetic::div_mod::lemma_mod_pos_bound(i as int, plane as int);
            vstd::arithmetic::div_mod::lemma_div_pos_is_pos(i as int, plane as int);
            lemma_mul_is_associative(z as int, d.x as int, d.y as int);
            assert(0 <= z * d.x <= z * d.x * d.y <= i) by (nonlinear_arith)
                requires z >= 0, d.x > 0, d.y > 0, z * d.x * d.y == z * (d.x * d.y),
                    plane == d.x * d.y, i == plane * z + i % plane, i % plane >= 0;
        }
        let rest: i32 = i - (z * d.x * d.y);
        proof {
            assert(z * d.x * d.y == plane * z) by (nonlinear_arith)
                requires plane == d.x * d.y;
            assert(rest == i % plane);
        }
        let y: i32 = rest / d.x;
        let x: i32 = rest % d.x;
        Vec3i { x, y, z }
    }

    /// The number of tiles in a space of size `dimensions`.
    pub fn allocation_size(dimensions: Vec3i) -> (r: usize)
        requires
            fits_i32(dimensions.x * dimensions.y),
            fits_i32(dimensions.x * dimensions.y * dimensions.z),
        ensures
            r == (dimensions.x * dimensions.y * dimensions.z) as usize,
    {
        (dimensions.x * dimensions.y * dimensions.z) as usize
    }
}

/// Decoding the encoding of any coordinate inside the space gives that
/// coordinate back.
pub proof fn lemma_decode_encode(d: Vec3i, c: Vec3i)
    requires
        decodable(d),
        in_bounds(d, c),
    ensures
        spec_decode(d, spec_encode(d, c)) == c,
{
    let dx = d.x as int;
    let plane = dx * d.y;
    let i = spec_encode(d, c);
    assert(plane > 0) by (nonlinear_arith)
        requires d.x > 0, d.y > 0, plane == dx * d.y, dx == d.x;
    lemma_mul_is_associative(c.z as int, d.x as int, d.y as int);
    assert(c.y * d.x + c.x < plane) by (nonlinear_arith)
        requires 0 <= c.x < d.x, 0 <= c.y < d.y, plane == d.x * d.y, dx == d.x;
    assert(0 <= c.y * d.x + c.x) by (nonlinear_arith)
        requires 0 <= c.x, 0 <= c.y, 0 < d.x;
    assert(i == c.z * plane + (c.y * d.x + c.x));
    lemma_fundamental_div_mod_converse(i, plane, c.z as int, c.y * d.x + c.x);
    lemma_fundamental_div_mod_converse(c.y * d.x + c.x, dx, c.y as int, c.x as int);
    assert((i % plane) % dx == c.x);
    assert((i % plane) / dx == c.y);
    assert(i / plane == c.z);
}

/// Encoding the decoding of any non-negative index gives that index back.
pub proof fn lemma_encode_decode(d: Vec3i, i: int)
    requires
        decodable(d),
        0 <= i <= i32::MAX,
    ensures
        spec_encode(d, spec_decode(d, i)) == i,
{
    let dx = d.x as int;
    let plane = dx * d.y;
    assert(plane > 0) by (nonlinear_arith)
        requires d.x > 0, d.y > 0, plane == dx * d.y, dx == d.x;
    lemma_fundamental_div_mod(i, plane);
    lemma_fundamental_div_mod(i % plane, dx);
    vstd::arithmetic::div_mod::lemma_mod_pos_bound(i, plane);
    vstd::arithmetic::div_mod::lemma_mod_pos_bound(i % plane, dx);
    vstd::arithmetic::div_mod::lemma_div_pos_is_pos(i, plane);
    vstd::arithmetic::div_mod::lemma_div_pos_is_pos(i % plane, dx);
    assert(i / plane <= i) by (nonlinear_arith)
        requires plane >= 1, i >= 0, i == plane * (i / plane) + i % plane, i % plane >= 0;
    assert((i % plane) / dx <= i % plane) by (nonlinear_arith)
        requires dx >= 1, i % plane >= 0, i % plane == dx * ((i % plane) / dx) + (i % plane) % dx, (i % plane) % dx >= 0;
    let r = spec_decode(d, i);
    assert(r.z == i / plane);
    assert(r.y == (i % plane) / dx);
    assert(r.x == (i % plane) % dx);
    lemma_mul_is_associative(r.z as int, d.x as int, d.y as int);
    assert(spec_encode(d, r) == r.z * plane + r.y * d.x + r.x) by (nonlinear_arith)
        requires plane == dx * d.y, dx == d.x, r.z * d.x * d.y == r.z * (d.x * d.y);
    assert(r.z * plane + r.y * d.x + r.x == i) by (nonlinear_arith)
        requires
            r.z == i / plane, r.y == (i % plane) / dx, r.x == (i % plane) % dx, dx == d.x,
            i == plane * (i / plane) + i % plane,
            i % plane == dx * ((i % plane) / dx) + (i % plane) % dx;
}

} // verus!

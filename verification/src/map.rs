//! The tile map: a dense 3d grid of tiles, its column heights, the tiles
//! that hold liquid, and the record of changed tiles.
use vstd::prelude::*;
use std::collections::HashSet;
use crate::encoders::{FlatEncoder, spec_encode, encode_fits, decodable, in_bounds, spec_decode,
    lemma_decode_encode, lemma_encode_decode};
use crate::math::{Vec2i, Vec3i, fits_i32};
use crate::tile::{Tile, TileFlag, TileKind, tile_copy, z_transition_bit};
use crate::small::{Coords8, Coords24, coords8, coords24};

verus! {

broadcast use vstd::std_specs::hash::group_hash_axioms;

/// The changes made to the map since the record was last cleared.
#[derive(Debug)]
pub struct MapVersion {
    pub version: u64,
    pub dirty: Vec<(usize, Tile)>,
}

impl MapVersion {
    pub fn default() -> (r: MapVersion)
        ensures
            r.version == 0,
            r.dirty@ == Seq::<(usize, Tile)>::empty(),
    {
        MapVersion { version: 0, dirty: Vec::new() }
    }

    /// Records that the tile at index `morton` was `tile`.
    pub fn mark_dirty(&mut self, morton: usize, tile: Tile)
        requires
            old(self).version < u64::MAX,
        ensures
            final(self).version == old(self).version + 1,
            final(self).dirty@ == old(self).dirty@.push((morton, tile)),
    {
        self.version = self.version + 1;
        self.dirty.push((morton, tile));
    }
}

/// The map. Tile `c` is stored at index `spec_encode(dimensions, c)`.
pub struct TileMap {
    storage: Vec<Tile>,
    encoder: FlatEncoder,
    dimensions: Vec3i,
    pub sprite_dimensions: Vec3i,
    version: MapVersion,
    pub height_map: Vec<u8>,
    pub has_liquid: HashSet<usize>,
}

/// The number of tiles of a map of size `d`.
pub open spec fn map_size(d: Vec3i) -> int {
    d.x * d.y * d.z
}

/// Dimensions a map can have: positive sides whose products are `i32`s.
pub open spec fn valid_dimensions(d: Vec3i) -> bool {
    &&& decodable(d)
    &&& d.z > 0
    &&& fits_i32(map_size(d))
}

/// The tile at `c`, given the storage of a map of size `d`.
pub open spec fn tile_at(tiles: Seq<Tile>, d: Vec3i, c: Vec3i) -> Tile {
    tiles[spec_encode(d, c)]
}

/// `h` is the first level of column (x, y) below which the column is
/// empty, searching the levels before the last.
pub open spec fn is_column_height(tiles: Seq<Tile>, d: Vec3i, x: i32, y: i32, h: int) -> bool {
    &&& 0 <= h < d.z - 1
    &&& !tile_at(tiles, d, Vec3i { x, y, z: h as i32 }).spec_is_empty()
    &&& forall|z: int| 0 <= z < h ==> (#[trigger] tile_at(tiles, d, Vec3i { x, y, z: z as i32 })).spec_is_empty()
}

/// Every column the height map covers (all but the last) has a height.
pub open spec fn heights_exist(tiles: Seq<Tile>, d: Vec3i) -> bool {
    forall|i: int| 0 <= i < d.x * d.y - 1 ==> #[trigger] column_has_height(tiles, d, i)
}

/// The column at first-level index `i` has a height.
pub open spec fn column_has_height(tiles: Seq<Tile>, d: Vec3i, i: int) -> bool {
    exists|h: int| is_column_height(tiles, d, spec_decode(d, i).x, spec_decode(d, i).y, h)
}

/// `v` is the height of the column at first-level index `i`, kept to its
/// low eight bits.
pub open spec fn has_height(tiles: Seq<Tile>, d: Vec3i, i: int, v: u8) -> bool {
    exists|h: int| is_column_height(tiles, d, spec_decode(d, i).x, spec_decode(d, i).y, h) && v == h as u8
}

/// `hm` is the height map of `tiles`.
pub open spec fn is_height_map(hm: Seq<u8>, tiles: Seq<Tile>, d: Vec3i) -> bool {
    &&& hm.len() == d.x * d.y - 1
    &&& forall|i: int| 0 <= i < hm.len() ==> has_height(tiles, d, i, #[trigger] hm[i])
}

/// Every coordinate inside a map has an index into its storage.
pub proof fn lemma_index_in_range(d: Vec3i, c: Vec3i)
    requires
        valid_dimensions(d),
        in_bounds(d, c),
    ensures
        encode_fits(d, c),
        0 <= spec_encode(d, c) < map_size(d),
{
    let dx = d.x as int;
    let dy = d.y as int;
    let dz = d.z as int;
    assert(0 <= c.z * dx <= c.z * dx * dy < dz * dx * dy) by (nonlinear_arith)
        requires 0 <= c.z < dz, dx > 0, dy > 0;
    assert(c.y * dx + c.x < dx * dy) by (nonlinear_arith)
        requires 0 <= c.x < dx, 0 <= c.y < dy;
    assert(0 <= c.y * dx <= dx * dy) by (nonlinear_arith)
        requires 0 <= c.y < dy, dx > 0;
    assert(c.z * dx * dy + dx * dy <= dz * dx * dy) by (nonlinear_arith)
        requires 0 <= c.z < dz, dx > 0, dy > 0;
    assert(dz * dx * dy == dx * dy * dz) by (nonlinear_arith);
}

/// `v` as a one element sequence when `cond` holds, else empty.
pub open spec fn opt_seq(cond: bool, v: Vec3i) -> Seq<Vec3i> {
    if cond {
        seq![v]
    } else {
        Seq::empty()
    }
}

/// The horizontal neighbors of `c` in a map of size `d`: the eight
/// surrounding coordinates of its level, without those that a step west
/// or north (down to 0) or east or south (up to the size) leaves.
/// They come in the order: west, south-west, north, north-east,
/// north-west, south-east, east, south.
pub open spec fn spec_neighbors(d: Vec3i, c: Vec3i) -> Seq<Vec3i> {
    let w = c.x - 1 >= 0;
    let n = c.y - 1 >= 0;
    let e = c.x + 1 < d.x;
    let s = c.y + 1 < d.y;
    opt_seq(w, Vec3i { x: (c.x - 1) as i32, y: c.y, z: c.z })
        + opt_seq(w && s, Vec3i { x: (c.x - 1) as i32, y: (c.y + 1) as i32, z: c.z })
        + opt_seq(n, Vec3i { x: c.x, y: (c.y - 1) as i32, z: c.z })
        + opt_seq(n && e, Vec3i { x: (c.x + 1) as i32, y: (c.y - 1) as i32, z: c.z })
        + opt_seq(w && n, Vec3i { x: (c.x - 1) as i32, y: (c.y - 1) as i32, z: c.z })
        + opt_seq(e && s, Vec3i { x: (c.x + 1) as i32, y: (c.y + 1) as i32, z: c.z })
        + opt_seq(e, Vec3i { x: (c.x + 1) as i32, y: c.y, z: c.z })
        + opt_seq(s, Vec3i { x: c.x, y: (c.y + 1) as i32, z: c.z })
}

/// `c` can be stepped from by one in x and y without leaving `i32`.
pub open spec fn steppable(c: Vec3i) -> bool {
    i32::MIN < c.x < i32::MAX && i32::MIN < c.y < i32::MAX
}

/// Decoding an index of the first level gives a coordinate of that level
/// inside the map.
pub proof fn lemma_decode_first_level(d: Vec3i, i: int)
    requires
        valid_dimensions(d),
        0 <= i < d.x * d.y,
    ensures
        in_bounds(d, spec_decode(d, i)),
        spec_decode(d, i).z == 0,
        spec_encode(d, spec_decode(d, i)) == i,
{
    let dx = d.x as int;
    let plane = dx * d.y;
    assert(plane > 0) by (nonlinear_arith)
        requires d.x > 0, d.y > 0, plane == dx * d.y, dx == d.x;
    vstd::arithmetic::div_mod::lemma_mod_pos_bound(i, plane);
    vstd::arithmetic::div_mod::lemma_mod_pos_bound(i % plane, dx);
    vstd::arithmetic::div_mod::lemma_small_mod(i as nat, plane as nat);
    vstd::arithmetic::div_mod::lemma_basic_div(i, plane);
    vstd::arithmetic::div_mod::lemma_fundamental_div_mod(i, dx);
    vstd::arithmetic::div_mod::lemma_div_pos_is_pos(i, dx);
    assert(i / dx < d.y) by (nonlinear_arith)
        requires i < dx * d.y, i == dx * (i / dx) + i % dx, 0 <= i % dx, dx > 0;
    lemma_encode_decode(d, i);
}

/// Every level of column (x, y) can be encoded without overflow.
pub open spec fn column_fits(d: Vec3i, x: i32, y: i32) -> bool {
    forall|z: i32| 0 <= z < d.z ==> #[trigger] encode_fits(d, Vec3i { x, y, z })
}

/// The columns inside the map can be encoded without overflow.
pub proof fn lemma_column_fits(d: Vec3i, x: i32, y: i32)
    requires
        valid_dimensions(d),
        0 <= x < d.x,
        0 <= y < d.y,
    ensures
        column_fits(d, x, y),
{
    assert forall|z: i32| 0 <= z < d.z implies #[trigger] encode_fits(d, Vec3i { x, y, z }) by {
        lemma_index_in_range(d, Vec3i { x, y, z });
    }
}

/// A coordinate of column (x, y), whose first-level index is `hc`, lies
/// `z` planes further in the storage.
pub proof fn lemma_column_index(d: Vec3i, x: i32, y: i32, z: int)
    requires
        valid_dimensions(d),
        column_fits(d, x, y),
        0 <= spec_encode(d, Vec3i { x, y, z: 0 }) < d.x * d.y,
        0 <= z < d.z,
    ensures
        encode_fits(d, Vec3i { x, y, z: z as i32 }),
        spec_encode(d, Vec3i { x, y, z: z as i32 }) == z * (d.x * d.y) + spec_encode(d, Vec3i { x, y, z: 0 }),
        0 <= spec_encode(d, Vec3i { x, y, z: z as i32 }) < map_size(d),
{
    let dx = d.x as int;
    let dy = d.y as int;
    assert(encode_fits(d, Vec3i { x, y, z: 0i32 }));
    assert(encode_fits(d, Vec3i { x, y, z: z as i32 }));
    let hc = spec_encode(d, Vec3i { x, y, z: 0 });
    assert(hc == y * dx + x) by (nonlinear_arith)
        requires hc == 0 * d.x * d.y + y * d.x + x, dx == d.x;
    assert(z * dx * dy == z * (dx * dy)) by (nonlinear_arith);
    assert(0 <= z * dx <= z * dx * dy) by (nonlinear_arith)
        requires 0 <= z, dx > 0, dy > 0;
    assert(z * (dx * dy) + hc < d.z * (dx * dy)) by (nonlinear_arith)
        requires 0 <= z < d.z, 0 <= hc < dx * dy;
    assert(d.z * (dx * dy) == map_size(d)) by (nonlinear_arith)
        requires dx == d.x, dy == d.y;
    assert(z * (dx * dy) <= map_size(d)) by (nonlinear_arith)
        requires 0 <= z < d.z, dx > 0, dy > 0, d.z * (dx * dy) == map_size(d);
}

/// Decoding an index of the storage gives a coordinate inside the map
/// whose encoding is that index.
pub proof fn lemma_decode_in_map(d: Vec3i, i: int)
    requires
        valid_dimensions(d),
        0 <= i < map_size(d),
    ensures
        in_bounds(d, spec_decode(d, i)),
        encode_fits(d, spec_decode(d, i)),
        spec_encode(d, spec_decode(d, i)) == i,
{
    let dx = d.x as int;
    let plane = dx * d.y;
    assert(plane > 0) by (nonlinear_arith)
        requires d.x > 0, d.y > 0, plane == dx * d.y, dx == d.x;
    vstd::arithmetic::div_mod::lemma_mod_pos_bound(i, plane);
    vstd::arithmetic::div_mod::lemma_mod_pos_bound(i % plane, dx);
    vstd::arithmetic::div_mod::lemma_fundamental_div_mod(i, plane);
    vstd::arithmetic::div_mod::lemma_fundamental_div_mod(i % plane, dx);
    vstd::arithmetic::div_mod::lemma_div_pos_is_pos(i, plane);
    vstd::arithmetic::div_mod::lemma_div_pos_is_pos(i % plane, dx);
    assert(i / plane < d.z) by (nonlinear_arith)
        requires i < d.x * d.y * d.z, plane == dx * d.y, dx == d.x, i == plane * (i / plane) + i % plane,
            0 <= i % plane, plane > 0;
    assert((i % plane) / dx < d.y) by (nonlinear_arith)
        requires i % plane < plane, plane == dx * d.y, i % plane == dx * ((i % plane) / dx) + (i % plane) % dx,
            0 <= (i % plane) % dx, dx > 0;
    lemma_encode_decode(d, i);
    lemma_index_in_range(d, spec_decode(d, i));
}

/// The horizontal neighbors of a coordinate inside the map are inside it,
/// on its level, and at most eight.
pub proof fn lemma_neighbors_in_bounds(d: Vec3i, c: Vec3i)
    requires
        valid_dimensions(d),
        in_bounds(d, c),
    ensures
        spec_neighbors(d, c).len() <= 8,
        forall|v: Vec3i| spec_neighbors(d, c).contains(v) ==> in_bounds(d, v) && v.z == c.z,
{
    let w = c.x - 1 >= 0;
    let n = c.y - 1 >= 0;
    let e = c.x + 1 < d.x;
    let s = c.y + 1 < d.y;
    let a1 = opt_seq(w, Vec3i { x: (c.x - 1) as i32, y: c.y, z: c.z });
    let a2 = opt_seq(w && s, Vec3i { x: (c.x - 1) as i32, y: (c.y + 1) as i32, z: c.z });
    let a3 = opt_seq(n, Vec3i { x: c.x, y: (c.y - 1) as i32, z: c.z });
    let a4 = opt_seq(n && e, Vec3i { x: (c.x + 1) as i32, y: (c.y - 1) as i32, z: c.z });
    let a5 = opt_seq(w && n, Vec3i { x: (c.x - 1) as i32, y: (c.y - 1) as i32, z: c.z });
    let a6 = opt_seq(e && s, Vec3i { x: (c.x + 1) as i32, y: (c.y + 1) as i32, z: c.z });
    let a7 = opt_seq(e, Vec3i { x: (c.x + 1) as i32, y: c.y, z: c.z });
    let a8 = opt_seq(s, Vec3i { x: c.x, y: (c.y + 1) as i32, z: c.z });
    let p = |v: Vec3i| in_bounds(d, v) && v.z == c.z;
    assert forall|v: Vec3i| spec_neighbors(d, c).contains(v) implies in_bounds(d, v) && v.z == c.z by {
        let all = spec_neighbors(d, c);
        let i = choose|i: int| 0 <= i < all.len() && all[i] == v;
        assert(all == a1 + a2 + a3 + a4 + a5 + a6 + a7 + a8);
    }
}

/// `n` is a horizontal neighbor of `c`: on its level, at most one step
/// away in x and in y, and not `c` itself.
pub open spec fn is_beside(c: Vec3i, n: Vec3i) -> bool {
    &&& n.z == c.z
    &&& -1 <= n.x - c.x <= 1
    &&& -1 <= n.y - c.y <= 1
    &&& !(n.x == c.x && n.y == c.y)
}

proof fn lemma_opt_seq_contains(cond: bool, x: Vec3i, v: Vec3i)
    ensures
        opt_seq(cond, x).contains(v) <==> (cond && v == x),
{
    if cond {
        assert(opt_seq(cond, x)[0] == x);
    }
}

proof fn lemma_contains_add(a: Seq<Vec3i>, b: Seq<Vec3i>, v: Vec3i)
    ensures
        (a + b).contains(v) <==> (a.contains(v) || b.contains(v)),
{
    if a.contains(v) {
        let i = choose|i: int| 0 <= i < a.len() && a[i] == v;
        assert((a + b)[i] == v);
    }
    if b.contains(v) {
        let j = choose|j: int| 0 <= j < b.len() && b[j] == v;
        assert((a + b)[a.len() + j] == v);
    }
    if (a + b).contains(v) {
        let i = choose|i: int| 0 <= i < (a + b).len() && (a + b)[i] == v;
        if i < a.len() {
            assert(a[i] == v);
        } else {
            assert(b[i - a.len()] == v);
        }
    }
}

/// The horizontal neighbors the map lists for a coordinate inside it are
/// exactly its surrounding coordinates on its level that lie in the map.
pub proof fn lemma_neighbors_beside(d: Vec3i, c: Vec3i)
    requires
        valid_dimensions(d),
        in_bounds(d, c),
    ensures
        forall|v: Vec3i| #[trigger] spec_neighbors(d, c).contains(v) <==> in_bounds(d, v) && is_beside(c, v),
{
    let w = c.x - 1 >= 0;
    let n = c.y - 1 >= 0;
    let e = c.x + 1 < d.x;
    let s = c.y + 1 < d.y;
    let a1 = opt_seq(w, Vec3i { x: (c.x - 1) as i32, y: c.y, z: c.z });
    let a2 = opt_seq(w && s, Vec3i { x: (c.x - 1) as i32, y: (c.y + 1) as i32, z: c.z });
    let a3 = opt_seq(n, Vec3i { x: c.x, y: (c.y - 1) as i32, z: c.z });
    let a4 = opt_seq(n && e, Vec3i { x: (c.x + 1) as i32, y: (c.y - 1) as i32, z: c.z });
    let a5 = opt_seq(w && n, Vec3i { x: (c.x - 1) as i32, y: (c.y - 1) as i32, z: c.z });
    let a6 = opt_seq(e && s, Vec3i { x: (c.x + 1) as i32, y: (c.y + 1) as i32, z: c.z });
    let a7 = opt_seq(e, Vec3i { x: (c.x + 1) as i32, y: c.y, z: c.z });
    let a8 = opt_seq(s, Vec3i { x: c.x, y: (c.y + 1) as i32, z: c.z });
    let all = spec_neighbors(d, c);
    assert(all == a1 + a2 + a3 + a4 + a5 + a6 + a7 + a8);
    assert forall|v: Vec3i| #[trigger] all.contains(v) <==> in_bounds(d, v) && is_beside(c, v) by {
        lemma_contains_add(a1, a2, v);
        lemma_contains_add(a1 + a2, a3, v);
        lemma_contains_add(a1 + a2 + a3, a4, v);
        lemma_contains_add(a1 + a2 + a3 + a4, a5, v);
        lemma_contains_add(a1 + a2 + a3 + a4 + a5, a6, v);
        lemma_contains_add(a1 + a2 + a3 + a4 + a5 + a6, a7, v);
        lemma_contains_add(a1 + a2 + a3 + a4 + a5 + a6 + a7, a8, v);
        lemma_opt_seq_contains(w, Vec3i { x: (c.x - 1) as i32, y: c.y, z: c.z }, v);
        lemma_opt_seq_contains(w && s, Vec3i { x: (c.x - 1) as i32, y: (c.y + 1) as i32, z: c.z }, v);
        lemma_opt_seq_contains(n, Vec3i { x: c.x, y: (c.y - 1) as i32, z: c.z }, v);
        lemma_opt_seq_contains(n && e, Vec3i { x: (c.x + 1) as i32, y: (c.y - 1) as i32, z: c.z }, v);
        lemma_opt_seq_contains(w && n, Vec3i { x: (c.x - 1) as i32, y: (c.y - 1) as i32, z: c.z }, v);
        lemma_opt_seq_contains(e && s, Vec3i { x: (c.x + 1) as i32, y: (c.y + 1) as i32, z: c.z }, v);
        lemma_opt_seq_contains(e, Vec3i { x: (c.x + 1) as i32, y: c.y, z: c.z }, v);
        lemma_opt_seq_contains(s, Vec3i { x: c.x, y: (c.y + 1) as i32, z: c.z }, v);
    }
}

impl TileMap {
    pub closed spec fn tiles(self) -> Seq<Tile> {
        self.storage@
    }

    pub closed spec fn spec_dimensions(self) -> Vec3i {
        self.dimensions
    }

    pub closed spec fn spec_sprite_dimensions(self) -> Vec3i {
        self.sprite_dimensions
    }

    pub closed spec fn spec_height_map(self) -> Seq<u8> {
        self.height_map@
    }

    pub closed spec fn spec_has_liquid(self) -> Set<usize> {
        self.has_liquid@
    }

    pub closed spec fn spec_version(self) -> MapVersion {
        self.version
    }

    /// The map's parts agree: the storage holds one tile per coordinate
    /// and the encoder has the map's dimensions.
    pub closed spec fn wf(self) -> bool {
        &&& valid_dimensions(self.dimensions)
        &&& self.encoder.dimensions == self.dimensions
        &&& self.storage@.len() == map_size(self.dimensions)
    }

    /// `c` has a tile in the map's storage.
    pub open spec fn valid_coord(self, c: Vec3i) -> bool {
        &&& encode_fits(self.spec_dimensions(), c)
        &&& 0 <= spec_encode(self.spec_dimensions(), c) < self.tiles().len()
    }

    /// The tile at `c`.
    pub open spec fn spec_get(self, c: Vec3i) -> Tile {
        tile_at(self.tiles(), self.spec_dimensions(), c)
    }

    /// What a well formed map is made of.
    pub proof fn lemma_wf_facts(self)
        requires
            self.wf(),
        ensures
            valid_dimensions(self.spec_dimensions()),
            self.tiles().len() == map_size(self.spec_dimensions()),
    {
    }

    /// Coordinates inside the map have tiles.
    pub proof fn lemma_in_bounds_valid(self, c: Vec3i)
        requires
            self.wf(),
            in_bounds(self.spec_dimensions(), c),
        ensures
            self.valid_coord(c),
    {
        lemma_index_in_range(self.dimensions, c);
    }

    /// After a tile is written at `c`, reading `c` gives that tile back and
    /// reading any other coordinate of the map gives what it held before.
    pub proof fn lemma_get_after_set(self, c: Vec3i, other: Vec3i, tile: Tile)
        requires
            self.wf(),
            in_bounds(self.spec_dimensions(), c),
            in_bounds(self.spec_dimensions(), other),
        ensures
            tile_at(self.tiles().update(spec_encode(self.spec_dimensions(), c), tile),
                self.spec_dimensions(), c) == tile,
            other != c ==> tile_at(self.tiles().update(spec_encode(self.spec_dimensions(), c), tile),
                self.spec_dimensions(), other) == self.spec_get(other),
    {
        let d = self.dimensions;
        lemma_index_in_range(d, c);
        lemma_index_in_range(d, other);
        lemma_decode_encode(d, c);
        lemma_decode_encode(d, other);
    }

    pub fn len(&self) -> (r: usize)
        ensures
            r == self.tiles().len(),
    {
        self.storage.len()
    }

    pub fn is_empty(&self) -> (r: bool)
        ensures
            r == (self.tiles().len() == 0),
    {
        self.storage.len() == 0
    }

    pub fn size(&self) -> (r: usize)
        ensures
            r == self.tiles().len(),
    {
        self.storage.len()
    }

    pub fn dimensions(&self) -> (r: Vec3i)
        ensures
            r == self.spec_dimensions(),
    {
        self.dimensions
    }

    pub fn encoder(&self) -> (r: &FlatEncoder)
        requires
            self.wf(),
        ensures
            r.dimensions == self.spec_dimensions(),
    {
        &self.encoder
    }

    pub fn storage(&self) -> (r: &Vec<Tile>)
        ensures
            r@ == self.tiles(),
    {
        &self.storage
    }

    pub fn version(&self) -> (r: &MapVersion)
        ensures
            *r == self.spec_version(),
    {
        &self.version
    }

    /// The tile at `coords`.
    pub fn get(&self, coords: Vec3i) -> (r: &Tile)
        requires
            self.wf(),
            self.valid_coord(coords),
        ensures
            *r == self.spec_get(coords),
    {
        let i = self.encoder.encode(coords);
        &self.storage[i]
    }

    /// Replaces the tile at `coords`, recording a copy of the new tile as changed.
    pub fn set(&mut self, coords: Vec3i, tile: Tile)
        requires
            old(self).wf(),
            old(self).valid_coord(coords),
            old(self).spec_version().version < u64::MAX,
        ensures
            final(self).wf(),
            final(self).spec_dimensions() == old(self).spec_dimensions(),
            final(self).tiles() == old(self).tiles().update(spec_encode(old(self).spec_dimensions(), coords), tile),
            final(self).spec_version().version == old(self).spec_version().version + 1,
            final(self).spec_version().dirty@ == old(self).spec_version().dirty@.push(
                (spec_encode(old(self).spec_dimensions(), coords) as usize, tile_copy(tile))),
            final(self).spec_height_map() == old(self).spec_height_map(),
            final(self).spec_has_liquid() == old(self).spec_has_liquid(),
            final(self).spec_sprite_dimensions() == old(self).spec_sprite_dimensions(),
    {
        let morton = self.encoder.encode(coords);
        self.version.mark_dirty(morton, tile.clone());
        self.storage.set(morton, tile);
    }

    /// The tile at `coords`, to change in place, without recording the change.
    pub fn get_mut_untracked(&mut self, coords: Vec3i) -> (r: &mut Tile)
        requires
            old(self).wf(),
            old(self).valid_coord(coords),
        ensures
            *r == old(self).spec_get(coords),
            final(self).wf(),
            final(self).spec_dimensions() == old(self).spec_dimensions(),
            final(self).tiles() == old(self).tiles().update(spec_encode(old(self).spec_dimensions(), coords), *final(r)),
            final(self).spec_version() == old(self).spec_version(),
            final(self).spec_height_map() == old(self).spec_height_map(),
            final(self).spec_has_liquid() == old(self).spec_has_liquid(),
            final(self).spec_sprite_dimensions() == old(self).spec_sprite_dimensions(),
    {
        let morton = self.encoder.encode(coords);
        &mut self.storage[morton]
    }

    /// The tile at `coords`, to change in place; a copy of the tile as it
    /// is before the change is recorded as changed.
    pub fn get_mut(&mut self, coords: Vec3i) -> (r: &mut Tile)
        requires
            old(self).wf(),
            old(self).valid_coord(coords),
            old(self).spec_version().version < u64::MAX,
        ensures
            *r == old(self).spec_get(coords),
            final(self).wf(),
            final(self).spec_dimensions() == old(self).spec_dimensions(),
            final(self).tiles() == old(self).tiles().update(spec_encode(old(self).spec_dimensions(), coords), *final(r)),
            final(self).spec_version().version == old(self).spec_version().version + 1,
            final(self).spec_version().dirty@ == old(self).spec_version().dirty@.push(
                (spec_encode(old(self).spec_dimensions(), coords) as usize, tile_copy(old(self).spec_get(coords)))),
            final(self).spec_height_map() == old(self).spec_height_map(),
            final(self).spec_has_liquid() == old(self).spec_has_liquid(),
            final(self).spec_sprite_dimensions() == old(self).spec_sprite_dimensions(),
    {
        let morton = self.encoder.encode(coords);
        let copy = self.storage[morton].clone();
        self.version.mark_dirty(morton, copy);
        &mut self.storage[morton]
    }

    /// Replaces the tile at `coords` without recording the change.
    pub fn set_untracked(&mut self, coords: Vec3i, tile: Tile)
        requires
            old(self).wf(),
            old(self).valid_coord(coords),
        ensures
            final(self).wf(),
            final(self).spec_dimensions() == old(self).spec_dimensions(),
            final(self).tiles() == old(self).tiles().update(spec_encode(old(self).spec_dimensions(), coords), tile),
            final(self).spec_version() == old(self).spec_version(),
            final(self).spec_height_map() == old(self).spec_height_map(),
            final(self).spec_has_liquid() == old(self).spec_has_liquid(),
            final(self).spec_sprite_dimensions() == old(self).spec_sprite_dimensions(),
    {
        let morton = self.encoder.encode(coords);
        self.storage.set(morton, tile);
    }

    /// Records the tile at `coords` as changed.
    pub fn mark_dirty(&mut self, coords: Vec3i)
        requires
            old(self).wf(),
            old(self).valid_coord(coords),
            old(self).spec_version().version < u64::MAX,
        ensures
            final(self).wf(),
            final(self).spec_dimensions() == old(self).spec_dimensions(),
            final(self).tiles() == old(self).tiles(),
            final(self).spec_version().version == old(self).spec_version().version + 1,
            final(self).spec_version().dirty@ == old(self).spec_version().dirty@.push(
                (spec_encode(old(self).spec_dimensions(), coords) as usize, tile_copy(old(self).spec_get(coords)))),
            final(self).spec_height_map() == old(self).spec_height_map(),
            final(self).spec_has_liquid() == old(self).spec_has_liquid(),
            final(self).spec_sprite_dimensions() == old(self).spec_sprite_dimensions(),
    {
        let morton = self.encoder.encode(coords);
        let t = self.storage[morton].clone();
        self.version.mark_dirty(morton, t);
    }

    /// The horizontal neighbors of `coord`, see `spec_neighbors`.
    pub fn neighbors(&self, coord: &Vec3i) -> (r: Coords8)
        requires
            steppable(*coord),
        ensures
            coords8(r) == spec_neighbors(self.spec_dimensions(), *coord),
    {
        let mut ret = Coords8::new();
        let dimensions = self.dimensions;
        let ghost d = dimensions;
        let ghost c = *coord;
        let ghost w = c.x - 1 >= 0;
        let ghost n = c.y - 1 >= 0;
        let ghost e = c.x + 1 < d.x;
        let ghost s = c.y + 1 < d.y;

        let x = coord.x - 1;
        if x >= 0 {
            ret.push(Vec3i::new(x, coord.y, coord.z));
            let y = coord.y + 1;
            if y < dimensions.y {
                ret.push(Vec3i::new(x, y, coord.z));
            }
        }
        assert(coords8(ret) =~= opt_seq(w, Vec3i { x: (c.x - 1) as i32, y: c.y, z: c.z })
            + opt_seq(w && s, Vec3i { x: (c.x - 1) as i32, y: (c.y + 1) as i32, z: c.z }));
        let y = coord.y - 1;
        if y >= 0 {
            ret.push(Vec3i::new(coord.x, y, coord.z));
            let x = coord.x + 1;
            if x < dimensions.x {
                ret.push(Vec3i::new(x, y, coord.z));
            }
        }
        assert(coords8(ret) =~= opt_seq(w, Vec3i { x: (c.x - 1) as i32, y: c.y, z: c.z })
            + opt_seq(w && s, Vec3i { x: (c.x - 1) as i32, y: (c.y + 1) as i32, z: c.z })
            + opt_seq(n, Vec3i { x: c.x, y: (c.y - 1) as i32, z: c.z })
            + opt_seq(n && e, Vec3i { x: (c.x + 1) as i32, y: (c.y - 1) as i32, z: c.z }));
        let x = coord.x - 1;
        let y = coord.y - 1;
        if x >= 0 && y >= 0 {
            ret.push(Vec3i::new(x, y, coord.z));
        }
        let ghost r1 = coords8(ret);
        assert(r1 =~= opt_seq(w, Vec3i { x: (c.x - 1) as i32, y: c.y, z: c.z })
            + opt_seq(w && s, Vec3i { x: (c.x - 1) as i32, y: (c.y + 1) as i32, z: c.z })
            + opt_seq(n, Vec3i { x: c.x, y: (c.y - 1) as i32, z: c.z })
            + opt_seq(n && e, Vec3i { x: (c.x + 1) as i32, y: (c.y - 1) as i32, z: c.z })
            + opt_seq(w && n, Vec3i { x: (c.x - 1) as i32, y: (c.y - 1) as i32, z: c.z }));

        let x = coord.x + 1;
        let y = coord.y + 1;
        if x < dimensions.x {
            if y < dimensions.y {
                ret.push(Vec3i::new(x, y, coord.z));
            }
            ret.push(Vec3i::new(x, coord.y, coord.z));
        }
        if y < dimensions.y {
            ret.push(Vec3i::new(coord.x, y, coord.z));
        }
        assert(coords8(ret) =~= r1
            + opt_seq(e && s, Vec3i { x: (c.x + 1) as i32, y: (c.y + 1) as i32, z: c.z })
            + opt_seq(e, Vec3i { x: (c.x + 1) as i32, y: c.y, z: c.z })
            + opt_seq(s, Vec3i { x: c.x, y: (c.y + 1) as i32, z: c.z }));
        ret
    }

    /// Appends the items of `from` to `to`.
    fn append_coords(to: &mut Coords24, from: &Coords8)
        ensures
            coords24(*final(to)) == coords24(*old(to)) + coords8(*from),
    {
        let ghost start = coords24(*to);
        let mut i: usize = 0;
        while i < from.len()
            invariant
                i <= coords8(*from).len(),
                coords24(*to) == start + coords8(*from).subrange(0, i as int),
            decreases coords8(*from).len() - i,
        {
            to.push(from.get(i));
            i = i + 1;
            proof {
                assert(coords24(*to) =~= start + coords8(*from).subrange(0, i as int));
            }
        }
        proof {
            assert(coords8(*from).subrange(0, i as int) =~= coords8(*from));
        }
    }

    /// The horizontal neighbors of `coord` on its own level, then on the
    /// levels above and below it.
    pub fn neighbors_3d(&self, coord: &Vec3i) -> (r: Coords24)
        requires
            steppable(*coord),
            i32::MIN < coord.z < i32::MAX,
        ensures
            coords24(r) == spec_neighbors(self.spec_dimensions(), *coord)
                + spec_neighbors(self.spec_dimensions(), Vec3i { z: (coord.z - 1) as i32, ..*coord })
                + spec_neighbors(self.spec_dimensions(), Vec3i { z: (coord.z + 1) as i32, ..*coord }),
    {
        let mut r = Coords24::new();
        let a = self.neighbors(coord);
        let b = self.neighbors(&Vec3i::new(coord.x, coord.y, coord.z - 1));
        let c = self.neighbors(&Vec3i::new(coord.x, coord.y, coord.z + 1));
        Self::append_coords(&mut r, &a);
        Self::append_coords(&mut r, &b);
        Self::append_coords(&mut r, &c);
        proof {
            assert(coords24(r) =~= Seq::<Vec3i>::empty() + coords8(a) + coords8(b) + coords8(c));
        }
        r
    }

    /// The level of the first non-empty tile of column (x, y), searching
    /// the levels before the last; `None` when they are all empty.
    fn find_height(&self, x: i32, y: i32) -> (r: Option<i32>)
        requires
            self.wf(),
            column_fits(self.spec_dimensions(), x, y),
            0 <= spec_encode(self.spec_dimensions(), Vec3i { x, y, z: 0 }) < self.spec_dimensions().x * self.spec_dimensions().y,
        ensures
            r matches Some(h) ==> is_column_height(self.tiles(), self.spec_dimensions(), x, y, h as int),
            r is None ==> !exists|h: int| is_column_height(self.tiles(), self.spec_dimensions(), x, y, h),
    {
        let d = self.dimensions;
        let mut z: i32 = 0;
        while z < d.z - 1
            invariant
                self.wf(),
                d == self.spec_dimensions(),
                0 <= z,
                z <= d.z - 1 || z == 0,
                column_fits(d, x, y),
                0 <= spec_encode(d, Vec3i { x, y, z: 0 }) < d.x * d.y,
                forall|k: int| 0 <= k < z ==> (#[trigger] tile_at(self.tiles(), d, Vec3i { x, y, z: k as i32 })).spec_is_empty(),
            decreases d.z - 1 - z,
        {
            proof {
                lemma_column_index(d, x, y, z as int);
            }
            let c = Vec3i::new(x, y, z);
            if !self.get(c).is_empty() {
                return Some(z);
            }
            z = z + 1;
        }
        proof {
            assert forall|h: int| !is_column_height(self.tiles(), d, x, y, h) by {
                if is_column_height(self.tiles(), d, x, y, h) {
                    assert(tile_at(self.tiles(), d, Vec3i { x, y, z: h as i32 }).spec_is_empty());
                }
            }
        }
        None
    }

    /// Recomputes the height of every column but the last.
    pub fn recompute_height_map(&mut self)
        requires
            old(self).wf(),
            heights_exist(old(self).tiles(), old(self).spec_dimensions()),
        ensures
            final(self).wf(),
            final(self).tiles() == old(self).tiles(),
            final(self).spec_dimensions() == old(self).spec_dimensions(),
            final(self).spec_version() == old(self).spec_version(),
            final(self).spec_has_liquid() == old(self).spec_has_liquid(),
            final(self).spec_sprite_dimensions() == old(self).spec_sprite_dimensions(),
            is_height_map(final(self).spec_height_map(), final(self).tiles(), final(self).spec_dimensions()),
    {
        let d = self.dimensions;
        proof {
            lemma_index_in_range(d, Vec3i { x: 0, y: 0, z: 0 });
            lemma_index_in_range(d, Vec3i { x: (d.x - 1) as i32, y: (d.y - 1) as i32, z: 0 });
        }
        let min = self.encoder.encode(Vec3i::new(0, 0, 0));
        let max = self.encoder.encode(Vec3i::new(d.x - 1, d.y - 1, 0));
        proof {
            assert(spec_encode(d, Vec3i { x: 0, y: 0, z: 0 }) == 0) by (nonlinear_arith)
                requires spec_encode(d, Vec3i { x: 0, y: 0, z: 0 }) == 0 * d.x * d.y + 0 * d.x + 0;
            assert(spec_encode(d, Vec3i { x: (d.x - 1) as i32, y: (d.y - 1) as i32, z: 0 }) == d.x * d.y - 1) by (nonlinear_arith)
                requires spec_encode(d, Vec3i { x: (d.x - 1) as i32, y: (d.y - 1) as i32, z: 0 })
                    == 0 * d.x * d.y + (d.y - 1) * d.x + (d.x - 1);
        }
        let mut hm: Vec<u8> = Vec::new();
        let ghost mut hs: Seq<int> = Seq::empty();
        let mut index = min;
        while index < max
            invariant
                self.wf(),
                d == self.spec_dimensions(),
                min == 0,
                max == d.x * d.y - 1,
                min <= index <= max,
                hm@.len() == index,
                hs.len() == index,
                heights_exist(self.tiles(), d),
                forall|i: int| 0 <= i < hm@.len() ==> {
                    let c = #[trigger] spec_decode(d, i);
                    is_column_height(self.tiles(), d, c.x, c.y, hs[i]) && hm@[i] == hs[i] as u8
                },
            decreases max - index,
        {
            let xy = self.encoder.decode(index);
            proof {
                lemma_decode_first_level(d, index as int);
                lemma_column_fits(d, xy.x, xy.y);
                assert(column_has_height(self.tiles(), d, index as int));
            }
            let z = self.find_height(xy.x, xy.y);
            let h = z.unwrap();
            hm.push(h as u8);
            proof {
                hs = hs.push(h as int);
                let c = spec_decode(d, index as int);
                assert(c == xy);
            }
            index = index + 1;
        }
        proof {
            assert forall|i: int| 0 <= i < hm@.len() implies has_height(self.tiles(), d, i, #[trigger] hm@[i]) by {
                let c = spec_decode(d, i);
                assert(is_column_height(self.tiles(), d, c.x, c.y, hs[i]));
            }
            assert(hm@.len() == d.x * d.y - 1);
            assert(is_height_map(hm@, self.tiles(), d));
        }
        self.height_map = hm;
    }

    /// Recomputes the height of the column of `coord` when `coord` lies on
    /// its recorded height.
    pub fn recompute_height_map_single(&mut self, coord: Vec3i)
        requires
            old(self).wf(),
            column_fits(old(self).spec_dimensions(), coord.x, coord.y),
            0 <= spec_encode(old(self).spec_dimensions(), Vec3i { z: 0, ..coord }) < old(self).spec_height_map().len(),
            old(self).spec_height_map().len() <= old(self).spec_dimensions().x * old(self).spec_dimensions().y,
            exists|h: int| is_column_height(old(self).tiles(), old(self).spec_dimensions(), coord.x, coord.y, h),
        ensures
            final(self).wf(),
            final(self).tiles() == old(self).tiles(),
            final(self).spec_dimensions() == old(self).spec_dimensions(),
            final(self).spec_version() == old(self).spec_version(),
            final(self).spec_has_liquid() == old(self).spec_has_liquid(),
            final(self).spec_sprite_dimensions() == old(self).spec_sprite_dimensions(),
            ({
                let hc = spec_encode(old(self).spec_dimensions(), Vec3i { z: 0, ..coord });
                if coord.z == old(self).spec_height_map()[hc] as i32 {
                    exists|h: int| is_column_height(old(self).tiles(), old(self).spec_dimensions(), coord.x, coord.y, h)
                        && final(self).spec_height_map() == old(self).spec_height_map().update(hc, h as u8)
                } else {
                    final(self).spec_height_map() == old(self).spec_height_map()
                }
            }),
    {
        proof {
            assert(encode_fits(self.dimensions, Vec3i { x: coord.x, y: coord.y, z: 0i32 }));
        }
        let height_coord = self.encoder.encode(Vec3i::new(coord.x, coord.y, 0));
        if coord.z == self.height_map[height_coord] as i32 {
            let z = self.find_height(coord.x, coord.y);
            let h = z.unwrap();
            self.height_map.set(height_coord, h as u8);
        }
    }

    /// The height of column `coords`.
    pub fn height_at(&self, coords: Vec2i) -> (r: i32)
        requires
            self.wf(),
            encode_fits(self.spec_dimensions(), Vec3i { x: coords.x, y: coords.y, z: 0 }),
            0 <= spec_encode(self.spec_dimensions(), Vec3i { x: coords.x, y: coords.y, z: 0 }) < self.spec_height_map().len(),
        ensures
            r == self.spec_height_map()[spec_encode(self.spec_dimensions(), Vec3i { x: coords.x, y: coords.y, z: 0 })] as i32,
    {
        let i = self.encoder.encode(Vec3i::new(coords.x, coords.y, 0));
        self.height_map[i] as i32
    }

    /// Notes that the tile at `coord` holds liquid.
    pub fn add_liquid(&mut self, coord: Vec3i)
        requires
            old(self).wf(),
            encode_fits(old(self).spec_dimensions(), coord),
        ensures
            final(self).wf(),
            final(self).tiles() == old(self).tiles(),
            final(self).spec_dimensions() == old(self).spec_dimensions(),
            final(self).spec_version() == old(self).spec_version(),
            final(self).spec_height_map() == old(self).spec_height_map(),
            final(self).spec_has_liquid() == old(self).spec_has_liquid().insert(spec_encode(old(self).spec_dimensions(), coord) as usize),
            final(self).spec_sprite_dimensions() == old(self).spec_sprite_dimensions(),
    {
        let i = self.encoder.encode(coord);
        self.has_liquid.insert(i);
    }

    /// Forgets that the tile at `coord` holds liquid once it holds none.
    pub fn update_liquid(&mut self, coord: Vec3i)
        requires
            old(self).wf(),
            old(self).valid_coord(coord),
        ensures
            final(self).wf(),
            final(self).tiles() == old(self).tiles(),
            final(self).spec_dimensions() == old(self).spec_dimensions(),
            final(self).spec_version() == old(self).spec_version(),
            final(self).spec_height_map() == old(self).spec_height_map(),
            final(self).spec_has_liquid() == (if old(self).spec_get(coord).liquid is None {
                old(self).spec_has_liquid().remove(spec_encode(old(self).spec_dimensions(), coord) as usize)
            } else {
                old(self).spec_has_liquid()
            }),
            final(self).spec_sprite_dimensions() == old(self).spec_sprite_dimensions(),
    {
        if self.get(coord).liquid.is_none() {
            let i = self.encoder.encode(coord);
            self.has_liquid.remove(&i);
        }
    }

    /// A map of size `dimensions` whose every tile is a copy of `default`
    /// (the last one is `default` itself), with its height map computed.
    pub fn with_default(dimensions: Vec3i, default: Tile) -> (r: TileMap)
        requires
            valid_dimensions(dimensions),
            dimensions.x * dimensions.y <= 1 || (dimensions.z >= 2 && !default.spec_is_empty()),
        ensures
            r.wf(),
            r.spec_dimensions() == dimensions,
            forall|i: int| 0 <= i < r.tiles().len() ==> {
                &&& (#[trigger] r.tiles()[i]).kind == default.kind
                &&& r.tiles()[i].material == default.material
                &&& r.tiles()[i].flags == default.flags
            },
            forall|i: int| 0 <= i < r.tiles().len() - 1 ==> (#[trigger] r.tiles()[i]).liquid is None
                && r.tiles()[i].building is None,
            r.tiles().last() == default,
            r.spec_sprite_dimensions() == (Vec3i { x: 16, y: 24, z: 1 }),
            r.spec_version().version == 0,
            r.spec_version().dirty@ == Seq::<(usize, Tile)>::empty(),
            r.spec_has_liquid() == Set::<usize>::empty(),
            is_height_map(r.spec_height_map(), r.tiles(), dimensions),
    {
        let encoder = FlatEncoder::from_dimensions(dimensions);
        proof {
            assert(fits_i32(dimensions.x * dimensions.y));
            assert(dimensions.x * dimensions.y * dimensions.z >= 1) by (nonlinear_arith)
                requires dimensions.x > 0, dimensions.y > 0, dimensions.z > 0;
        }
        let size = FlatEncoder::allocation_size(dimensions);
        let mut storage: Vec<Tile> = Vec::new();
        let mut i: usize = 0;
        while i < size - 1
            invariant
                size >= 1,
                i <= size - 1,
                storage@.len() == i,
                forall|k: int| 0 <= k < i ==> {
                    &&& (#[trigger] storage@[k]).kind == default.kind
                    &&& storage@[k].material == default.material
                    &&& storage@[k].flags == default.flags
                    &&& storage@[k].liquid is None
                    &&& storage@[k].building is None
                },
            decreases size - 1 - i,
        {
            storage.push(default.clone());
            i = i + 1;
        }
        storage.push(default);
        let mut r = TileMap {
            storage,
            encoder,
            dimensions,
            sprite_dimensions: Vec3i::new(16, 24, 1),
            version: MapVersion::default(),
            height_map: Vec::new(),
            has_liquid: HashSet::new(),
        };
        proof {
            assert(r.wf());
            assert forall|i: int| 0 <= i < dimensions.x * dimensions.y - 1 implies
                #[trigger] column_has_height(r.tiles(), dimensions, i) by {
                let c = spec_decode(dimensions, i);
                lemma_decode_first_level(dimensions, i);
                let c0 = Vec3i { x: c.x, y: c.y, z: 0i32 };
                assert(c0 == c);
                lemma_index_in_range(dimensions, c0);
                assert(is_column_height(r.tiles(), dimensions, c.x, c.y, 0));
            }
        }
        r.recompute_height_map();
        r
    }

    /// A map of size `dimensions` of empty tiles.
    pub fn new(dimensions: Vec3i) -> (r: TileMap)
        requires
            valid_dimensions(dimensions),
            dimensions.x * dimensions.y <= 1,
        ensures
            r.wf(),
            r.spec_dimensions() == dimensions,
            forall|i: int| 0 <= i < r.tiles().len() ==> {
                &&& (#[trigger] r.tiles()[i]).kind == TileKind::Empty
                &&& r.tiles()[i].material == 0
                &&& r.tiles()[i].flags.bits == 0
                &&& r.tiles()[i].liquid is None
                &&& r.tiles()[i].building is None
            },
            r.spec_version().version == 0,
            r.spec_has_liquid() == Set::<usize>::empty(),
            is_height_map(r.spec_height_map(), r.tiles(), dimensions),
    {
        let r = Self::with_default(dimensions, Tile::default());
        proof {
            assert forall|i: int| 0 <= i < r.tiles().len() implies (#[trigger] r.tiles()[i]).liquid is None by {
                if i < r.tiles().len() - 1 {
                } else {
                    assert(r.tiles()[i] == r.tiles().last());
                }
            }
        }
        r
    }

    /// Replaces the liquid of the tile at `coords`, without recording the change.
    pub(crate) fn set_liquid_untracked(&mut self, coords: Vec3i, liquid: Option<crate::tile::TileLiquid>)
        requires
            old(self).wf(),
            old(self).valid_coord(coords),
        ensures
            final(self).wf(),
            final(self).spec_dimensions() == old(self).spec_dimensions(),
            final(self).tiles() == old(self).tiles().update(spec_encode(old(self).spec_dimensions(), coords),
                Tile { liquid, ..old(self).spec_get(coords) }),
            final(self).spec_version() == old(self).spec_version(),
            final(self).spec_height_map() == old(self).spec_height_map(),
            final(self).spec_has_liquid() == old(self).spec_has_liquid(),
            final(self).spec_sprite_dimensions() == old(self).spec_sprite_dimensions(),
    {
        let i = self.encoder.encode(coords);
        let t = &self.storage[i];
        let nt = Tile { material: t.material, flags: t.flags, kind: t.kind, liquid, building: t.building };
        self.storage.set(i, nt);
    }

    /// Adds liquid to the tile at `coords`, recording a copy of the tile as
    /// it was.
    pub(crate) fn add_liquid_to_tile(&mut self, coords: Vec3i, material: crate::defs::MaterialDefinitionId, depth: u8)
        requires
            old(self).wf(),
            old(self).valid_coord(coords),
            old(self).spec_version().version < u64::MAX,
            old(self).spec_get(coords).liquid matches Some(l) ==> l.material == material,
        ensures
            final(self).wf(),
            final(self).spec_dimensions() == old(self).spec_dimensions(),
            ({
                let t = old(self).spec_get(coords);
                let i = spec_encode(old(self).spec_dimensions(), coords);
                &&& final(self).tiles() == old(self).tiles().update(i, Tile {
                        liquid: crate::tile::spec_add_liquid(t.liquid, material, depth), ..t })
                &&& final(self).spec_version().version == old(self).spec_version().version + 1
                &&& final(self).spec_version().dirty@ == old(self).spec_version().dirty@.push((i as usize, crate::tile::tile_copy(t)))
            }),
            final(self).spec_height_map() == old(self).spec_height_map(),
            final(self).spec_has_liquid() == old(self).spec_has_liquid(),
            final(self).spec_sprite_dimensions() == old(self).spec_sprite_dimensions(),
    {
        let i = self.encoder.encode(coords);
        let t = &self.storage[i];
        let copy = t.clone();
        let mut nt = Tile { material: t.material, flags: t.flags, kind: t.kind, liquid: t.liquid, building: t.building };
        nt.add_liquid(material, depth);
        self.version.mark_dirty(i, copy);
        self.storage.set(i, nt);
    }

    /// Forgets the recorded changes.
    pub fn clear_dirty(&mut self)
        ensures
            final(self).tiles() == old(self).tiles(),
            final(self).spec_dimensions() == old(self).spec_dimensions(),
            old(self).wf() ==> final(self).wf(),
            final(self).spec_version().version == old(self).spec_version().version,
            final(self).spec_version().dirty@ == Seq::<(usize, Tile)>::empty(),
            final(self).spec_height_map() == old(self).spec_height_map(),
            final(self).spec_has_liquid() == old(self).spec_has_liquid(),
            final(self).spec_sprite_dimensions() == old(self).spec_sprite_dimensions(),
    {
        self.version.dirty.clear();
    }
}

/// The tile `t` emptied: no kind, material 0.
pub open spec fn spec_emptied(t: Tile) -> Tile {
    Tile { kind: TileKind::Empty, material: 0, ..t }
}

/// The tile `t` made a ramp of `kind`, connecting levels.
pub open spec fn spec_ramped(t: Tile, kind: TileKind) -> Tile {
    Tile { kind, flags: TileFlag { bits: t.flags.bits | z_transition_bit() }, ..t }
}

/// The tile `t` made a floor, no longer connecting levels.
pub open spec fn spec_floored(t: Tile) -> Tile {
    Tile { kind: TileKind::Floor, flags: TileFlag { bits: t.flags.bits & !z_transition_bit() }, ..t }
}

/// The coordinates around `c`: its horizontal neighbors on its level, then
/// those on the level below, then those on the level above.
pub open spec fn spec_neighbors_3d(d: Vec3i, c: Vec3i) -> Seq<Vec3i> {
    spec_neighbors(d, c) + spec_neighbors(d, Vec3i { z: (c.z - 1) as i32, ..c })
        + spec_neighbors(d, Vec3i { z: (c.z + 1) as i32, ..c })
}

/// The changes recorded for the tiles around `c`, in the order of
/// `spec_neighbors_3d`.
pub open spec fn marks_around(tiles: Seq<Tile>, d: Vec3i, c: Vec3i) -> Seq<(usize, Tile)> {
    spec_neighbors_3d(d, c).map_values(|n: Vec3i| (spec_encode(d, n) as usize, tile_copy(tile_at(tiles, d, n))))
}

/// The changes recorded around each of `cs` in turn.
pub open spec fn marks_around_all(tiles: Seq<Tile>, d: Vec3i, cs: Seq<Vec3i>) -> Seq<(usize, Tile)>
    decreases cs.len(),
{
    if cs.len() == 0 {
        Seq::empty()
    } else {
        marks_around_all(tiles, d, cs.drop_last()) + marks_around(tiles, d, cs.last())
    }
}

/// The height of column (x, y), see `is_column_height`.
pub open spec fn column_height(tiles: Seq<Tile>, d: Vec3i, x: i32, y: i32) -> int {
    choose|h: int| is_column_height(tiles, d, x, y, h)
}

/// A column has one height.
pub proof fn lemma_column_height_unique(tiles: Seq<Tile>, d: Vec3i, x: i32, y: i32, h1: int, h2: int)
    requires
        is_column_height(tiles, d, x, y, h1),
        is_column_height(tiles, d, x, y, h2),
    ensures
        h1 == h2,
{
    if h1 < h2 {
        assert(tile_at(tiles, d, Vec3i { x, y, z: h1 as i32 }).spec_is_empty());
    } else if h2 < h1 {
        assert(tile_at(tiles, d, Vec3i { x, y, z: h2 as i32 }).spec_is_empty());
    }
}

/// The height map after the column of `c` is brought up to date, see
/// `TileMap::recompute_height_map_single`.
pub open spec fn height_after(hm: Seq<u8>, tiles: Seq<Tile>, d: Vec3i, c: Vec3i) -> Seq<u8> {
    let hc = spec_encode(d, Vec3i { z: 0, ..c });
    if c.z == hm[hc] as i32 {
        hm.update(hc, column_height(tiles, d, c.x, c.y) as u8)
    } else {
        hm
    }
}

/// The height map after the columns of each of `cs` in turn.
pub open spec fn heights_after(hm: Seq<u8>, tiles: Seq<Tile>, d: Vec3i, cs: Seq<Vec3i>) -> Seq<u8>
    decreases cs.len(),
{
    if cs.len() == 0 {
        hm
    } else {
        height_after(heights_after(hm, tiles, d, cs.drop_last()), tiles, d, cs.last())
    }
}

/// A written tile whose surroundings can be updated: it lies on a level
/// between two others, and its column has a height in the height map.
pub open spec fn finishable(map: TileMap, c: Vec3i) -> bool {
    let d = map.spec_dimensions();
    &&& in_bounds(d, c)
    &&& 1 <= c.z && c.z + 1 < d.z
    &&& 0 <= spec_encode(d, Vec3i { z: 0, ..c }) < map.spec_height_map().len()
    &&& exists|h: int| is_column_height(map.tiles(), d, c.x, c.y, h)
}

/// Writes tiles of a map as terrain changes, and afterwards records the
/// tiles around each written one as changed and brings the height of its
/// column up to date.
pub struct MapWriter {
    wrote_coords: Vec<Vec3i>,
}

impl MapWriter {
    /// The written coordinates, in order.
    pub closed spec fn wrote(&self) -> Seq<Vec3i> {
        self.wrote_coords@
    }

    /// A writer that wrote nothing.
    pub fn new() -> (r: MapWriter)
        ensures
            r.wrote() == Seq::<Vec3i>::empty(),
    {
        MapWriter { wrote_coords: Vec::new() }
    }

    /// A writer that wrote nothing, with room for `capacity` coordinates.
    pub fn with_capacity(capacity: usize) -> (r: MapWriter)
        ensures
            r.wrote() == Seq::<Vec3i>::empty(),
    {
        MapWriter { wrote_coords: Vec::with_capacity(capacity) }
    }

    /// Empties the tile at `coord`, recording it as changed.
    pub fn make_empty(self, map: &mut TileMap, coord: Vec3i) -> (r: MapWriter)
        requires
            old(map).wf(),
            old(map).valid_coord(coord),
            old(map).spec_version().version < u64::MAX,
        ensures
            final(map).wf(),
            final(map).spec_dimensions() == old(map).spec_dimensions(),
            final(map).tiles() == old(map).tiles().update(spec_encode(old(map).spec_dimensions(), coord),
                spec_emptied(old(map).spec_get(coord))),
            final(map).spec_version().version == old(map).spec_version().version + 1,
            final(map).spec_version().dirty@ == old(map).spec_version().dirty@.push(
                (spec_encode(old(map).spec_dimensions(), coord) as usize, tile_copy(old(map).spec_get(coord)))),
            final(map).spec_height_map() == old(map).spec_height_map(),
            final(map).spec_has_liquid() == old(map).spec_has_liquid(),
            r.wrote() == self.wrote().push(coord),
    {
        let tile = map.get_mut(coord);
        tile.make_empty();
        let mut w = self;
        w.wrote_coords.push(coord);
        w
    }

    /// Makes the tile at `coord` a ramp of `kind`, recording it as changed.
    pub fn make_ramp(self, map: &mut TileMap, coord: Vec3i, kind: TileKind) -> (r: MapWriter)
        requires
            old(map).wf(),
            old(map).valid_coord(coord),
            old(map).spec_version().version < u64::MAX,
        ensures
            final(map).wf(),
            final(map).spec_dimensions() == old(map).spec_dimensions(),
            final(map).tiles() == old(map).tiles().update(spec_encode(old(map).spec_dimensions(), coord),
                spec_ramped(old(map).spec_get(coord), kind)),
            final(map).spec_version().version == old(map).spec_version().version + 1,
            final(map).spec_version().dirty@ == old(map).spec_version().dirty@.push(
                (spec_encode(old(map).spec_dimensions(), coord) as usize, tile_copy(old(map).spec_get(coord)))),
            final(map).spec_height_map() == old(map).spec_height_map(),
            final(map).spec_has_liquid() == old(map).spec_has_liquid(),
            r.wrote() == self.wrote().push(coord),
    {
        let tile = map.get_mut(coord);
        tile.make_ramp(kind);
        let mut w = self;
        w.wrote_coords.push(coord);
        w
    }

    /// Makes the tile at `coord` a floor, recording it as changed.
    pub fn make_floor(self, map: &mut TileMap, coord: Vec3i) -> (r: MapWriter)
        requires
            old(map).wf(),
            old(map).valid_coord(coord),
            old(map).spec_version().version < u64::MAX,
        ensures
            final(map).wf(),
            final(map).spec_dimensions() == old(map).spec_dimensions(),
            final(map).tiles() == old(map).tiles().update(spec_encode(old(map).spec_dimensions(), coord),
                spec_floored(old(map).spec_get(coord))),
            final(map).spec_version().version == old(map).spec_version().version + 1,
            final(map).spec_version().dirty@ == old(map).spec_version().dirty@.push(
                (spec_encode(old(map).spec_dimensions(), coord) as usize, tile_copy(old(map).spec_get(coord)))),
            final(map).spec_height_map() == old(map).spec_height_map(),
            final(map).spec_has_liquid() == old(map).spec_has_liquid(),
            r.wrote() == self.wrote().push(coord),
    {
        let tile = map.get_mut(coord);
        tile.make_floor();
        let mut w = self;
        w.wrote_coords.push(coord);
        w
    }

    /// Records the tiles around each written tile as changed, in the order
    /// of writing, and brings the height of each written column up to date.
    pub fn finish(self, map: &mut TileMap)
        requires
            old(map).wf(),
            old(map).spec_height_map().len() <= old(map).spec_dimensions().x * old(map).spec_dimensions().y,
            forall|k: int| 0 <= k < self.wrote().len() ==> finishable(*old(map), #[trigger] self.wrote()[k]),
            old(map).spec_version().version + 24 * self.wrote().len() <= u64::MAX,
        ensures
            final(map).wf(),
            final(map).tiles() == old(map).tiles(),
            final(map).spec_dimensions() == old(map).spec_dimensions(),
            final(map).spec_has_liquid() == old(map).spec_has_liquid(),
            final(map).spec_sprite_dimensions() == old(map).spec_sprite_dimensions(),
            final(map).spec_version().dirty@ == old(map).spec_version().dirty@
                + marks_around_all(old(map).tiles(), old(map).spec_dimensions(), self.wrote()),
            final(map).spec_version().version == old(map).spec_version().version
                + marks_around_all(old(map).tiles(), old(map).spec_dimensions(), self.wrote()).len(),
            final(map).spec_height_map() == heights_after(old(map).spec_height_map(), old(map).tiles(),
                old(map).spec_dimensions(), self.wrote()),
    {
        let ghost tiles = map.tiles();
        let ghost d = map.spec_dimensions();
        let ghost dirty0 = map.spec_version().dirty@;
        let ghost v0 = map.spec_version().version;
        let ghost hm0 = map.spec_height_map();
        let ghost cs = self.wrote();
        proof {
            assert(cs.take(0) =~= Seq::<Vec3i>::empty());
            assert(dirty0 + marks_around_all(tiles, d, cs.take(0)) =~= dirty0);
        }
        let mut k: usize = 0;
        while k < self.wrote_coords.len()
            invariant
                k <= cs.len(),
                cs == self.wrote(),
                map.wf(),
                map.tiles() == tiles,
                map.spec_dimensions() == d,
                valid_dimensions(d),
                map.spec_has_liquid() == old(map).spec_has_liquid(),
                map.spec_sprite_dimensions() == old(map).spec_sprite_dimensions(),
                map.spec_height_map().len() == hm0.len(),
                hm0.len() <= d.x * d.y,
                forall|m: int| 0 <= m < cs.len() ==> finishable(*old(map), #[trigger] cs[m]),
                old(map).spec_dimensions() == d,
                old(map).tiles() == tiles,
                old(map).spec_height_map() == hm0,
                v0 == old(map).spec_version().version,
                v0 + 24 * cs.len() <= u64::MAX,
                map.spec_version().dirty@ == dirty0 + marks_around_all(tiles, d, cs.take(k as int)),
                marks_around_all(tiles, d, cs.take(k as int)).len() <= 24 * k,
                map.spec_version().version == v0 + marks_around_all(tiles, d, cs.take(k as int)).len(),
                map.spec_height_map() == heights_after(hm0, tiles, d, cs.take(k as int)),
            decreases cs.len() - k,
        {
            let c = self.wrote_coords[k];
            let ghost below = Vec3i { z: (c.z - 1) as i32, ..c };
            let ghost above = Vec3i { z: (c.z + 1) as i32, ..c };
            proof {
                assert(finishable(*old(map), cs[k as int]));
                assert(cs[k as int] == c);
                lemma_neighbors_in_bounds(d, c);
                lemma_neighbors_in_bounds(d, below);
                lemma_neighbors_in_bounds(d, above);
                assert(cs.take(k + 1).drop_last() =~= cs.take(k as int));
                assert(cs.take(k + 1).last() == c);
            }
            let around = map.neighbors_3d(&c);
            let ghost ns = spec_neighbors_3d(d, c);
            let ghost marks = marks_around(tiles, d, c);
            let ghost base = map.spec_version().dirty@;
            let ghost vb = map.spec_version().version;
            proof {
                assert(coords24(around) == ns);
                assert(ns.len() <= 24);
                assert(marks.take(0) =~= Seq::<(usize, Tile)>::empty());
                assert(base + marks.take(0) =~= base);
            }
            let mut j: usize = 0;
            while j < around.len()
                invariant
                    j <= ns.len(),
                    ns.len() <= 24,
                    coords24(around) == ns,
                    ns == spec_neighbors_3d(d, c),
                    marks == marks_around(tiles, d, c),
                    map.wf(),
                    map.tiles() == tiles,
                    map.spec_dimensions() == d,
                    valid_dimensions(d),
                    in_bounds(d, c),
                    1 <= c.z && c.z + 1 < d.z,
                    forall|v: Vec3i| spec_neighbors(d, c).contains(v) ==> in_bounds(d, v),
                    forall|v: Vec3i| spec_neighbors(d, Vec3i { z: (c.z - 1) as i32, ..c }).contains(v) ==> in_bounds(d, v),
                    forall|v: Vec3i| spec_neighbors(d, Vec3i { z: (c.z + 1) as i32, ..c }).contains(v) ==> in_bounds(d, v),
                    map.spec_has_liquid() == old(map).spec_has_liquid(),
                    map.spec_sprite_dimensions() == old(map).spec_sprite_dimensions(),
                    map.spec_height_map() == heights_after(hm0, tiles, d, cs.take(k as int)),
                    map.spec_version().dirty@ == base + marks.take(j as int),
                    map.spec_version().version == vb + j,
                    vb + 24 <= u64::MAX,
                decreases ns.len() - j,
            {
                let n = around.get(j);
                proof {
                    assert(ns.contains(n)) by {
                        assert(ns[j as int] == n);
                    }
                    let n1 = spec_neighbors(d, c);
                    let n2 = spec_neighbors(d, Vec3i { z: (c.z - 1) as i32, ..c });
                    let n3 = spec_neighbors(d, Vec3i { z: (c.z + 1) as i32, ..c });
                    assert(ns == n1 + n2 + n3);
                    if j < n1.len() {
                        assert(n1[j as int] == n);
                        assert(n1.contains(n));
                    } else if j < n1.len() + n2.len() {
                        assert(n2[j - n1.len()] == n);
                        assert(n2.contains(n));
                    } else {
                        assert(n3[j - n1.len() - n2.len()] == n);
                        assert(n3.contains(n));
                    }
                    map.lemma_in_bounds_valid(n);
                    assert(marks[j as int] == (spec_encode(d, n) as usize, tile_copy(tile_at(tiles, d, n))));
                    assert(marks.take(j + 1) =~= marks.take(j as int).push(marks[j as int]));
                }
                map.mark_dirty(n);
                j = j + 1;
            }
            proof {
                assert(marks.take(j as int) =~= marks);
                assert(marks.len() == ns.len());
                assert(map.spec_version().dirty@ =~= dirty0 + marks_around_all(tiles, d, cs.take(k + 1)));
                assert(finishable(*old(map), c));
                let hc = spec_encode(d, Vec3i { z: 0, ..c });
                assert(column_fits(d, c.x, c.y)) by {
                    assert forall|z: i32| 0 <= z < d.z implies #[trigger] encode_fits(d, Vec3i { x: c.x, y: c.y, z }) by {
                        lemma_index_in_range(d, Vec3i { x: c.x, y: c.y, z });
                    }
                }
            }
            let ghost hm_before = map.spec_height_map();
            map.recompute_height_map_single(c);
            proof {
                let hc = spec_encode(d, Vec3i { z: 0, ..c });
                if c.z == hm_before[hc] as i32 {
                    let h = choose|h: int| is_column_height(tiles, d, c.x, c.y, h)
                        && map.spec_height_map() == hm_before.update(hc, h as u8);
                    lemma_column_height_unique(tiles, d, c.x, c.y, h, column_height(tiles, d, c.x, c.y));
                }
                assert(map.spec_height_map() == height_after(hm_before, tiles, d, c));
            }
            k = k + 1;
        }
        proof {
            assert(cs.take(k as int) =~= cs);
        }
    }
}

} // verus!

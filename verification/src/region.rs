//! Terrain of a region built from the height of each column: a floor at
//! that height, solid ground below it, and ramps where floor meets a rise.
use vstd::prelude::*;
use crate::encoders::{in_bounds, spec_decode, spec_encode, lemma_decode_encode};
use crate::map::{TileMap, tile_at, spec_neighbors, is_beside, lemma_neighbors_beside, lemma_decode_in_map, lemma_index_in_range, lemma_neighbors_in_bounds, map_size, valid_dimensions};
use crate::math::Vec3i;
use crate::small::coords8;
use crate::tile::{Tile, TileFlag, TileKind};

verus! {

/// A tile of `kind` of material 0, without flags, liquid or building.
pub open spec fn plain_tile(kind: TileKind) -> Tile {
    Tile { material: 0, flags: TileFlag { bits: 0 }, kind, liquid: None, building: None }
}

/// The position of column (c.x, c.y) among the heights of a map of size `d`.
pub open spec fn column_of(d: Vec3i, c: Vec3i) -> int {
    c.y * d.x + c.x
}

/// The tile on level `z` of a column filled to height `h`: floor on level
/// `h`, solid below it (greater levels), and `t` as it was above.
pub open spec fn filled_tile(t: Tile, z: int, h: int) -> Tile {
    if z == h {
        plain_tile(TileKind::Floor)
    } else if z > h {
        plain_tile(TileKind::Solid)
    } else {
        t
    }
}

/// The tiles of a map of size `d` after each column is filled to its height in `heights`.
pub open spec fn spec_filled(tiles: Seq<Tile>, d: Vec3i, heights: Seq<u8>) -> Seq<Tile> {
    Seq::new(
        tiles.len(),
        |i: int| filled_tile(tiles[i], spec_decode(d, i).z as int, heights[column_of(d, spec_decode(d, i))] as int),
    )
}

/// Whether some horizontal neighbor of `c` is a tile of `kind`.
pub open spec fn has_adjacent(tiles: Seq<Tile>, d: Vec3i, c: Vec3i, kind: TileKind) -> bool {
    exists|j: int| 0 <= j < spec_neighbors(d, c).len() && #[trigger] tile_at(tiles, d, spec_neighbors(d, c)[j]).kind == kind
}

/// The floor tile at index `i` turns into a ramp: it lies off the border of
/// the map and has both a floor and a solid tile beside it.
pub open spec fn becomes_ramp(tiles: Seq<Tile>, d: Vec3i, i: int) -> bool {
    let c = spec_decode(d, i);
    &&& tiles[i].kind == TileKind::Floor
    &&& 1 <= c.x < d.x - 1
    &&& 1 <= c.y < d.y - 1
    &&& has_adjacent(tiles, d, c, TileKind::Floor)
    &&& has_adjacent(tiles, d, c, TileKind::Solid)
}

/// `t` as a ramp rising to the north.
pub open spec fn as_ramp(t: Tile) -> Tile {
    Tile { kind: TileKind::RampUpNorth, ..t }
}

/// The tiles of a region built on `tiles` from `heights`: the columns are
/// filled, then every floor tile that `becomes_ramp` in the filled map is
/// made a ramp.
pub open spec fn spec_region(tiles: Seq<Tile>, d: Vec3i, heights: Seq<u8>) -> Seq<Tile> {
    let f = spec_filled(tiles, d, heights);
    Seq::new(f.len(), |i: int| if becomes_ramp(f, d, i) { as_ramp(f[i]) } else { f[i] })
}

/// In a built region each column's surface lies at its height: the tile
/// there is a floor or a ramp, every tile below it is solid ground, and the
/// tiles above it that were not floor are as they were.
pub proof fn lemma_region_column(tiles: Seq<Tile>, d: Vec3i, heights: Seq<u8>, c: Vec3i)
    requires
        valid_dimensions(d),
        tiles.len() == map_size(d),
        heights.len() == d.x * d.y,
        in_bounds(d, c),
    ensures
        ({
            let r = spec_region(tiles, d, heights)[spec_encode(d, c)];
            let h = heights[column_of(d, c)] as int;
            &&& c.z == h ==> r.kind == TileKind::Floor || r.kind == TileKind::RampUpNorth
            &&& c.z > h ==> r == plain_tile(TileKind::Solid)
            &&& c.z < h && tiles[spec_encode(d, c)].kind != TileKind::Floor ==> r == tiles[spec_encode(d, c)]
        }),
{
    lemma_index_in_range(d, c);
    lemma_decode_encode(d, c);
    let i = spec_encode(d, c);
    let f = spec_filled(tiles, d, heights);
    assert(f[i] == filled_tile(tiles[i], c.z as int, heights[column_of(d, c)] as int));
    if becomes_ramp(f, d, i) {
        assert(spec_region(tiles, d, heights)[i] == as_ramp(f[i]));
    } else {
        assert(spec_region(tiles, d, heights)[i] == f[i]);
    }
}

/// The height `heights` gives the column of `c`.
pub open spec fn height_of(heights: Seq<u8>, d: Vec3i, c: Vec3i) -> int {
    heights[c.y * d.x + c.x] as int
}

/// Whether the ground at `n` is solid once the columns are filled: it lies
/// below its column's floor, or above it where the map held a solid tile.
pub open spec fn solid_ground(tiles: Seq<Tile>, d: Vec3i, heights: Seq<u8>, n: Vec3i) -> bool {
    ||| n.z > height_of(heights, d, n)
    ||| n.z < height_of(heights, d, n) && tiles[spec_encode(d, n)].kind == TileKind::Solid
}

/// A ramp is only placed where the ground rises: a tile of a built region
/// that is a ramp, and was not one of the map's ramps above the ground,
/// lies off the border of the map, was floor once the
/// columns were filled (its column's floor, or a floor of the map above
/// it), and has a horizontal neighbor whose ground is solid.
pub proof fn lemma_ramp_beside_solid(tiles: Seq<Tile>, d: Vec3i, heights: Seq<u8>, c: Vec3i)
    requires
        valid_dimensions(d),
        tiles.len() == map_size(d),
        heights.len() == d.x * d.y,
        in_bounds(d, c),
        spec_region(tiles, d, heights)[spec_encode(d, c)].kind == TileKind::RampUpNorth,
        c.z >= height_of(heights, d, c) || tiles[spec_encode(d, c)].kind != TileKind::RampUpNorth,
    ensures
        1 <= c.x < d.x - 1,
        1 <= c.y < d.y - 1,
        c.z == height_of(heights, d, c) || (c.z < height_of(heights, d, c) && tiles[spec_encode(d, c)].kind == TileKind::Floor),
        exists|n: Vec3i| in_bounds(d, n) && #[trigger] is_beside(c, n) && solid_ground(tiles, d, heights, n),
{
    lemma_index_in_range(d, c);
    lemma_decode_encode(d, c);
    let i = spec_encode(d, c);
    let f = spec_filled(tiles, d, heights);
    assert(f[i] == filled_tile(tiles[i], c.z as int, heights[column_of(d, c)] as int));
    if !becomes_ramp(f, d, i) {
        assert(spec_region(tiles, d, heights)[i] == f[i]);
        assert(false);
    }
    assert(spec_region(tiles, d, heights)[i] == as_ramp(f[i]));
    let ns = spec_neighbors(d, c);
    let j = choose|j: int| 0 <= j < ns.len() && #[trigger] tile_at(f, d, ns[j]).kind == TileKind::Solid;
    let n = ns[j];
    lemma_neighbors_in_bounds(d, c);
    lemma_neighbors_beside(d, c);
    assert(ns.contains(n));
    lemma_index_in_range(d, n);
    lemma_decode_encode(d, n);
    let k = spec_encode(d, n);
    assert(f[k] == filled_tile(tiles[k], n.z as int, heights[column_of(d, n)] as int));
    assert(solid_ground(tiles, d, heights, n));
    assert(in_bounds(d, n) && is_beside(c, n));
}

/// On flat ground no ramp is placed: when every column has the same height
/// `h`, no tile of the built region on level `h` or below it is a ramp.
pub proof fn lemma_flat_region_has_no_ramps(tiles: Seq<Tile>, d: Vec3i, heights: Seq<u8>, h: u8, c: Vec3i)
    requires
        valid_dimensions(d),
        tiles.len() == map_size(d),
        heights.len() == d.x * d.y,
        forall|k: int| 0 <= k < heights.len() ==> #[trigger] heights[k] == h,
        in_bounds(d, c),
        c.z >= h,
    ensures
        spec_region(tiles, d, heights)[spec_encode(d, c)].kind != TileKind::RampUpNorth,
{
    lemma_index_in_range(d, c);
    lemma_decode_encode(d, c);
    lemma_column_in_range(d, c);
    let i = spec_encode(d, c);
    let f = spec_filled(tiles, d, heights);
    assert(f[i] == filled_tile(tiles[i], c.z as int, heights[column_of(d, c)] as int));
    if spec_region(tiles, d, heights)[i].kind == TileKind::RampUpNorth {
        lemma_ramp_beside_solid(tiles, d, heights, c);
        let n = choose|n: Vec3i| in_bounds(d, n) && #[trigger] is_beside(c, n) && solid_ground(tiles, d, heights, n);
        lemma_column_in_range(d, n);
        assert(height_of(heights, d, n) == h);
    }
}

/// A column inside the map has a height.
proof fn lemma_column_in_range(d: Vec3i, c: Vec3i)
    requires
        valid_dimensions(d),
        in_bounds(d, c),
    ensures
        0 <= column_of(d, c) < d.x * d.y,
        column_of(d, c) <= spec_encode(d, c),
{
    assert(0 <= c.y * d.x) by (nonlinear_arith)
        requires c.y >= 0, d.x > 0;
    assert(c.y * d.x + c.x < d.x * d.y) by (nonlinear_arith)
        requires 0 <= c.y < d.y, 0 <= c.x < d.x, d.x > 0;
    assert(0 <= c.z * d.x * d.y) by (nonlinear_arith)
        requires c.z >= 0, d.x > 0, d.y > 0;
}

/// Whether the tile at `c` has a horizontal neighbor of `kind`.
#[verifier::rlimit(40)]
fn adjacent_kind(map: &TileMap, c: Vec3i, kind: TileKind) -> (r: bool)
    requires
        map.wf(),
        in_bounds(map.spec_dimensions(), c),
    ensures
        r == has_adjacent(map.tiles(), map.spec_dimensions(), c, kind),
{
    let ghost d = map.spec_dimensions();
    proof {
        map.lemma_wf_facts();
        lemma_neighbors_in_bounds(d, c);
    }
    let ns = map.neighbors(&c);
    let mut j: usize = 0;
    while j < ns.len()
        invariant
            map.wf(),
            d == map.spec_dimensions(),
            coords8(ns) == spec_neighbors(d, c),
            j <= coords8(ns).len(),
            forall|v: Vec3i| spec_neighbors(d, c).contains(v) ==> in_bounds(d, v) && v.z == c.z,
            forall|k: int| 0 <= k < j ==> #[trigger] tile_at(map.tiles(), d, spec_neighbors(d, c)[k]).kind != kind,
        decreases coords8(ns).len() - j,
    {
        let n = ns.get(j);
        proof {
            assert(spec_neighbors(d, c).contains(n));
            map.lemma_in_bounds_valid(n);
        }
        if map.get(n).kind == kind {
            assert(tile_at(map.tiles(), d, spec_neighbors(d, c)[j as int]).kind == kind);
            return true;
        }
        j = j + 1;
    }
    false
}

/// Builds the terrain of a region on `map` from the height of each column,
/// `heights[y * width + x]` for column (x, y), without recording the
/// changes: each column gets a floor at its height and solid tiles below
/// it, and then each floor tile off the border of the map with both a
/// floor and a solid tile beside it becomes a ramp rising to the north.
pub fn region_from_heights(heights: &Vec<u8>, map: &mut TileMap)
    requires
        old(map).wf(),
        heights@.len() == old(map).spec_dimensions().x * old(map).spec_dimensions().y,
        forall|k: int| 0 <= k < heights@.len() ==> #[trigger] heights@[k] < old(map).spec_dimensions().z,
    ensures
        final(map).wf(),
        final(map).spec_dimensions() == old(map).spec_dimensions(),
        final(map).tiles() == spec_region(old(map).tiles(), old(map).spec_dimensions(), heights@),
        final(map).spec_version() == old(map).spec_version(),
        final(map).spec_height_map() == old(map).spec_height_map(),
        final(map).spec_has_liquid() == old(map).spec_has_liquid(),
        final(map).spec_sprite_dimensions() == old(map).spec_sprite_dimensions(),
{
    let ghost d = map.spec_dimensions();
    let ghost start = map.tiles();
    proof {
        map.lemma_wf_facts();
    }
    let size = map.len();
    let dims = map.dimensions();
    let mut i: usize = 0;
    while i < size
        invariant
            map.wf(),
            d == map.spec_dimensions(),
            dims == d,
            valid_dimensions(d),
            size == map_size(d),
            map.tiles().len() == size,
            start.len() == size,
            heights@.len() == d.x * d.y,
            forall|k: int| 0 <= k < heights@.len() ==> #[trigger] heights@[k] < d.z,
            i <= size,
            forall|k: int| 0 <= k < i ==> #[trigger] map.tiles()[k] == spec_filled(start, d, heights@)[k],
            forall|k: int| i <= k < size ==> #[trigger] map.tiles()[k] == start[k],
            map.spec_version() == old(map).spec_version(),
            map.spec_height_map() == old(map).spec_height_map(),
            map.spec_has_liquid() == old(map).spec_has_liquid(),
            map.spec_sprite_dimensions() == old(map).spec_sprite_dimensions(),
        decreases size - i,
    {
        proof {
            lemma_decode_in_map(d, i as int);
        }
        let c = map.encoder().decode(i);
        proof {
            lemma_column_in_range(d, c);
            map.lemma_in_bounds_valid(c);
        }
        let h = heights[(c.y * dims.x + c.x) as usize];
        let ghost before = map.tiles();
        if c.z == h as i32 {
            map.set_untracked(c, Tile { material: 0, flags: TileFlag::empty(), kind: TileKind::Floor, liquid: None, building: None });
        } else if c.z > h as i32 {
            map.set_untracked(c, Tile { material: 0, flags: TileFlag::empty(), kind: TileKind::Solid, liquid: None, building: None });
        }
        proof {
            assert(map.tiles() =~= before.update(i as int, spec_filled(start, d, heights@)[i as int]));
        }
        i = i + 1;
    }
    let ghost filled = map.tiles();
    proof {
        assert(filled =~= spec_filled(start, d, heights@));
    }
    let mut ramps: Vec<bool> = Vec::new();
    let mut k: usize = 0;
    while k < size
        invariant
            map.wf(),
            d == map.spec_dimensions(),
            dims == d,
            valid_dimensions(d),
            size == map_size(d),
            map.tiles() == filled,
            filled.len() == size,
            k <= size,
            ramps@.len() == k,
            forall|m: int| 0 <= m < k ==> #[trigger] ramps@[m] == becomes_ramp(filled, d, m),
        decreases size - k,
    {
        proof {
            lemma_decode_in_map(d, k as int);
            map.lemma_in_bounds_valid(spec_decode(d, k as int));
        }
        let c = map.encoder().decode(k);
        let ramp = map.get(c).is_floor() && 1 <= c.x && c.x < dims.x - 1 && 1 <= c.y && c.y < dims.y - 1
            && adjacent_kind(map, c, TileKind::Floor) && adjacent_kind(map, c, TileKind::Solid);
        ramps.push(ramp);
        k = k + 1;
    }
    let mut k: usize = 0;
    while k < size
        invariant
            map.wf(),
            d == map.spec_dimensions(),
            valid_dimensions(d),
            size == map_size(d),
            filled.len() == size,
            map.tiles().len() == size,
            ramps@.len() == size,
            forall|m: int| 0 <= m < size ==> #[trigger] ramps@[m] == becomes_ramp(filled, d, m),
            k <= size,
            forall|m: int| 0 <= m < k ==> #[trigger] map.tiles()[m] == spec_region(start, d, heights@)[m],
            forall|m: int| k <= m < size ==> #[trigger] map.tiles()[m] == filled[m],
            filled == spec_filled(start, d, heights@),
            map.spec_version() == old(map).spec_version(),
            map.spec_height_map() == old(map).spec_height_map(),
            map.spec_has_liquid() == old(map).spec_has_liquid(),
            map.spec_sprite_dimensions() == old(map).spec_sprite_dimensions(),
        decreases size - k,
    {
        let ghost before = map.tiles();
        if ramps[k] {
            proof {
                lemma_decode_in_map(d, k as int);
                map.lemma_in_bounds_valid(spec_decode(d, k as int));
            }
            let c = map.encoder().decode(k);
            let tile = map.get_mut_untracked(c);
            tile.kind = TileKind::RampUpNorth;
        }
        proof {
            assert(map.tiles() =~= before.update(k as int, spec_region(start, d, heights@)[k as int]));
        }
        k = k + 1;
    }
    proof {
        assert(map.tiles() =~= spec_region(start, d, heights@));
    }
}

} // verus!

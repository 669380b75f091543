//! How liquid moves between tiles: falling into the tile below, spreading
//! to neighbors, and rising when it has nowhere else to go.
use vstd::prelude::*;
use crate::encoders::{in_bounds, spec_decode, spec_encode, encode_fits};
use crate::map::{TileMap, tile_at, spec_neighbors, valid_dimensions, map_size, lemma_decode_in_map,
    lemma_neighbors_in_bounds, lemma_index_in_range};
use crate::math::Vec3i;
use crate::tile::{Tile, TileLiquid, tile_copy, spec_drained, spec_add_liquid};
use crate::small::{Coords8, coords8};

verus! {

/// The deepest liquid a tile takes from others.
pub const MAX_LIQUID_DEPTH: u8 = 50;
/// Liquid shallower than this stays where it is.
pub const MIN_DEPTH_DISPERSION: u8 = 20;
/// How much liquid soaks into the soil at a time.
pub const SOIL_DRAIN_PER_ITER: u8 = 10;

/// `depth` of `liquid` to add at `coord` once all tiles have moved.
#[derive(Debug, Clone, Copy, PartialEq, Eq, Structural)]
pub struct LiquidAddition {
    pub coord: Vec3i,
    pub depth: u8,
    pub liquid: TileLiquid,
}

/// What the liquid of one tile did: the liquid left on the tile, the
/// additions to other tiles, how many times liquid was taken from the
/// tile, and whether the tile must be marked as changed.
#[derive(Debug, Clone)]
pub struct LiquidFlow {
    pub liquid: Option<TileLiquid>,
    pub additions: Vec<LiquidAddition>,
    pub removals: usize,
    pub dirty: bool,
}

pub open spec fn min_u8(a: u8, b: u8) -> u8 {
    if a < b { a } else { b }
}

/// The coordinate one level deeper.
pub open spec fn below(c: Vec3i) -> Vec3i {
    Vec3i { x: c.x, y: c.y, z: (c.z + 1) as i32 }
}

/// The coordinate one level higher.
pub open spec fn above(c: Vec3i) -> Vec3i {
    Vec3i { x: c.x, y: c.y, z: (c.z - 1) as i32 }
}

/// `n` is empty and the tile below it has room for liquid.
pub open spec fn open_to_fall(tiles: Seq<Tile>, d: Vec3i, n: Vec3i) -> bool {
    &&& tile_at(tiles, d, n).spec_is_empty()
    &&& match tile_at(tiles, d, below(n)).liquid {
        Some(l) => l.depth < MAX_LIQUID_DEPTH,
        None => true,
    }
}

/// The position in `ns` of the first neighbor, from position `k` on, that is open to fall into.
pub open spec fn first_open(tiles: Seq<Tile>, d: Vec3i, ns: Seq<Vec3i>, k: int) -> Option<int>
    decreases ns.len() - k,
{
    if k >= ns.len() || k < 0 {
        None
    } else if open_to_fall(tiles, d, ns[k]) {
        Some(k)
    } else {
        first_open(tiles, d, ns, k + 1)
    }
}

/// The state of a tile's liquid while it spreads: the liquid left, the
/// additions so far, the removals so far, and whether anything moved.
pub type SpreadState = (Option<TileLiquid>, Seq<LiquidAddition>, nat, bool);

/// Spreading the source liquid `src` over the neighbors `ns` from
/// position `k` on: solid neighbors are passed; a neighbor without liquid
/// gets `min(20, src.depth)` and spreading goes on; the first neighbor
/// whose liquid is shallower than 30 gets `min(20, its depth)` of its own
/// liquid and spreading stops; deeper neighbors are passed. Each transfer
/// drains the same depth from the tile.
pub open spec fn spread(tiles: Seq<Tile>, d: Vec3i, ns: Seq<Vec3i>, k: int, src: TileLiquid, st: SpreadState) -> SpreadState
    decreases ns.len() - k,
{
    if k >= ns.len() || k < 0 {
        st
    } else {
        let t = tile_at(tiles, d, ns[k]);
        if t.spec_is_solid() {
            spread(tiles, d, ns, k + 1, src, st)
        } else {
            match t.liquid {
                Some(tl) => if tl.depth < MAX_LIQUID_DEPTH - MIN_DEPTH_DISPERSION {
                    let dd = min_u8(MIN_DEPTH_DISPERSION, tl.depth);
                    (spec_drained(st.0, dd), st.1.push(LiquidAddition { coord: ns[k], depth: dd, liquid: tl }), st.2 + 1, true)
                } else {
                    spread(tiles, d, ns, k + 1, src, st)
                },
                None => {
                    let dd = min_u8(MIN_DEPTH_DISPERSION, src.depth);
                    spread(tiles, d, ns, k + 1, src,
                        (spec_drained(st.0, dd), st.1.push(LiquidAddition { coord: ns[k], depth: dd, liquid: src }), st.2 + 1, true))
                },
            }
        }
    }
}

/// What the liquid on the tile at `c` does, with its horizontal neighbors
/// in the order `ns`:
/// - an empty tile passes to the tile below what it lacks of the full depth;
/// - liquid deeper than 20 then moves 20 (or all of it) to the first
///   neighbor open to fall into; without one, it spreads over the
///   neighbors; if nothing spread and it is deeper than 50, the excess
///   rises to the tile above unless that tile is solid.
/// The tile is marked changed when liquid moved in the second step.
pub open spec fn spec_flow(tiles: Seq<Tile>, d: Vec3i, c: Vec3i, ns: Seq<Vec3i>) -> SpreadState {
    let tile = tile_at(tiles, d, c);
    match tile.liquid {
        None => (None, Seq::empty(), 0, false),
        Some(src) => {
            let falls = tile.spec_is_empty() && crate::tile::spec_liquid_depth(tile_at(tiles, d, below(c))) < MAX_LIQUID_DEPTH;
            let fall_depth = (MAX_LIQUID_DEPTH - crate::tile::spec_liquid_depth(tile_at(tiles, d, below(c)))) as u8;
            let st0: SpreadState = if falls {
                (spec_drained(Some(src), fall_depth), seq![LiquidAddition { coord: below(c), depth: fall_depth, liquid: src }], 1, false)
            } else {
                (Some(src), Seq::empty(), 0, false)
            };
            if src.depth > MIN_DEPTH_DISPERSION {
                match first_open(tiles, d, ns, 0) {
                    Some(k) => {
                        let dd = min_u8(MIN_DEPTH_DISPERSION, src.depth);
                        (spec_drained(st0.0, dd), st0.1.push(LiquidAddition { coord: ns[k], depth: dd, liquid: src }), st0.2 + 1, true)
                    },
                    None => {
                        let st1 = spread(tiles, d, ns, 0, src, st0);
                        if !st1.3 && src.depth > MAX_LIQUID_DEPTH && !tile_at(tiles, d, above(c)).spec_is_solid() {
                            let dd = (src.depth - MAX_LIQUID_DEPTH) as u8;
                            (spec_drained(st1.0, dd), st1.1.push(LiquidAddition { coord: above(c), depth: dd, liquid: src }), st1.2 + 1, true)
                        } else {
                            st1
                        }
                    },
                }
            } else {
                st0
            }
        },
    }
}

/// The reads the flow of the tile at `c` makes stay inside the map: the
/// tile below it and below its neighbors when it is empty or spreads,
/// and the tile above it when it may rise.
pub open spec fn flow_reads_valid(tiles: Seq<Tile>, d: Vec3i, c: Vec3i) -> bool {
    let tile = tile_at(tiles, d, c);
    match tile.liquid {
        None => true,
        Some(src) => {
            &&& (tile.spec_is_empty() || src.depth > MIN_DEPTH_DISPERSION) ==> c.z + 1 < d.z
            &&& src.depth > MAX_LIQUID_DEPTH ==> c.z >= 1
        },
    }
}

/// The liquid left after taking `depth` from `l`, as `Tile::remove_liquid` leaves it.
fn drained(l: Option<TileLiquid>, depth: u8) -> (r: Option<TileLiquid>)
    ensures
        r == spec_drained(l, depth),
{
    match l {
        Some(x) => {
            let dd = x.depth.saturating_sub(depth);
            if dd == 0 {
                None
            } else {
                Some(TileLiquid { material: x.material, depth: dd })
            }
        },
        None => None,
    }
}

fn min_depth(a: u8, b: u8) -> (r: u8)
    ensures
        r == min_u8(a, b),
{
    if a < b { a } else { b }
}

/// What the liquid on the tile at `coord` does, see `spec_flow`; `ns`
/// are the tile's neighbors in the order they are tried.
pub fn liquid_flow(map: &TileMap, coord: Vec3i, ns: &Coords8) -> (r: LiquidFlow)
    requires
        map.wf(),
        in_bounds(map.spec_dimensions(), coord),
        forall|i: int| 0 <= i < coords8(*ns).len() ==> in_bounds(map.spec_dimensions(), #[trigger] coords8(*ns)[i]) && coords8(*ns)[i].z == coord.z,
        flow_reads_valid(map.tiles(), map.spec_dimensions(), coord),
        coords8(*ns).len() < usize::MAX,
    ensures
        ({
            let f = spec_flow(map.tiles(), map.spec_dimensions(), coord, coords8(*ns));
            &&& r.liquid == f.0
            &&& r.additions@ == f.1
            &&& r.removals == f.2
            &&& r.dirty == f.3
        }),
{
    let ghost tiles = map.tiles();
    let ghost d = map.spec_dimensions();
    proof {
        map.lemma_in_bounds_valid(coord);
    }
    let tile = map.get(coord);
    let src = match tile.liquid {
        Some(l) => l,
        None => {
            return LiquidFlow { liquid: None, additions: Vec::new(), removals: 0, dirty: false };
        },
    };
    let mut cur: Option<TileLiquid> = Some(src);
    let mut additions: Vec<LiquidAddition> = Vec::new();
    let mut removals: usize = 0;
    if tile.is_empty() {
        let down = Vec3i::new(coord.x, coord.y, coord.z + 1);
        proof {
            map.lemma_in_bounds_valid(down);
        }
        let below_depth = map.get(down).liquid_depth();
        if below_depth < MAX_LIQUID_DEPTH {
            let diff = MAX_LIQUID_DEPTH - below_depth;
            cur = drained(cur, diff);
            removals = removals + 1;
            additions.push(LiquidAddition { coord: down, depth: diff, liquid: src });
        }
    }
    let ghost st0: SpreadState = (cur, additions@, removals as nat, false);
    if src.depth > MIN_DEPTH_DISPERSION {
        // The first neighbor that is open to fall into.
        let mut k: usize = 0;
        let mut found: Option<usize> = None;
        while k < ns.len()
            invariant_except_break
                found is None,
                first_open(tiles, d, coords8(*ns), 0) == first_open(tiles, d, coords8(*ns), k as int),
            invariant
                map.wf(),
                tiles == map.tiles(),
                d == map.spec_dimensions(),
                k <= coords8(*ns).len(),
                coord.z + 1 < d.z,
                forall|i: int| 0 <= i < coords8(*ns).len() ==> in_bounds(d, #[trigger] coords8(*ns)[i]) && coords8(*ns)[i].z == coord.z,
            ensures
                found matches Some(f) ==> f < coords8(*ns).len() && first_open(tiles, d, coords8(*ns), 0) == Some(f as int),
                found is None ==> first_open(tiles, d, coords8(*ns), 0) is None,
            decreases coords8(*ns).len() - k,
        {
            let n = ns.get(k);
            proof {
                map.lemma_in_bounds_valid(n);
            }
            if map.get(n).is_empty() {
                let nb = Vec3i::new(n.x, n.y, n.z + 1);
                proof {
                    map.lemma_in_bounds_valid(nb);
                }
                let room = match map.get(nb).liquid {
                    Some(l) => l.depth < MAX_LIQUID_DEPTH,
                    None => true,
                };
                if room {
                    found = Some(k);
                    break;
                }
            }
            k = k + 1;
        }
        match found {
            Some(k) => {
                let diff = min_depth(MIN_DEPTH_DISPERSION, src.depth);
                additions.push(LiquidAddition { coord: ns.get(k), depth: diff, liquid: src });
                cur = drained(cur, diff);
                removals = removals + 1;
                return LiquidFlow { liquid: cur, additions, removals, dirty: true };
            },
            None => {},
        }

        // Spread over the neighbors.
        let mut did_move = false;
        let mut j: usize = 0;
        while j < ns.len()
            invariant_except_break
                removals <= j + 1,
                spread(tiles, d, coords8(*ns), 0, src, st0)
                    == spread(tiles, d, coords8(*ns), j as int, src, (cur, additions@, removals as nat, did_move)),
            invariant
                map.wf(),
                tiles == map.tiles(),
                d == map.spec_dimensions(),
                j <= coords8(*ns).len(),
                coords8(*ns).len() < usize::MAX,
                !did_move ==> removals <= 1,
                forall|i: int| 0 <= i < coords8(*ns).len() ==> in_bounds(d, #[trigger] coords8(*ns)[i]) && coords8(*ns)[i].z == coord.z,
            ensures
                spread(tiles, d, coords8(*ns), 0, src, st0) == (cur, additions@, removals as nat, did_move),
            decreases coords8(*ns).len() - j,
        {
            let target = ns.get(j);
            proof {
                map.lemma_in_bounds_valid(target);
            }
            let target_tile = map.get(target);
            if !target_tile.is_solid() {
                match target_tile.liquid {
                    Some(tl) => {
                        if tl.depth < MAX_LIQUID_DEPTH - MIN_DEPTH_DISPERSION {
                            let dd = min_depth(MIN_DEPTH_DISPERSION, tl.depth);
                            additions.push(LiquidAddition { coord: target, depth: dd, liquid: tl });
                            cur = drained(cur, dd);
                            removals = removals + 1;
                            did_move = true;
                            break;
                        }
                    },
                    None => {
                        let dd = min_depth(MIN_DEPTH_DISPERSION, src.depth);
                        additions.push(LiquidAddition { coord: target, depth: dd, liquid: src });
                        cur = drained(cur, dd);
                        removals = removals + 1;
                        did_move = true;
                    },
                }
            }
            j = j + 1;
        }
        if !did_move && src.depth > MAX_LIQUID_DEPTH {
            let up = Vec3i::new(coord.x, coord.y, coord.z - 1);
            proof {
                map.lemma_in_bounds_valid(up);
            }
            if !map.get(up).is_solid() {
                let diff = src.depth - MAX_LIQUID_DEPTH;
                additions.push(LiquidAddition { coord: up, depth: diff, liquid: src });
                cur = drained(cur, diff);
                removals = removals + 1;
                return LiquidFlow { liquid: cur, additions, removals, dirty: true };
            }
        }
        return LiquidFlow { liquid: cur, additions, removals, dirty: did_move };
    }
    LiquidFlow { liquid: cur, additions, removals, dirty: false }
}

/// `c` repeated `n` times.
pub open spec fn repeat(c: Vec3i, n: nat) -> Seq<Vec3i> {
    Seq::new(n, |i: int| c)
}

/// The state of the liquid pass: the tiles, the changes recorded, the
/// coordinates liquid was taken from, and the additions to make.
pub type PassState = (Seq<Tile>, Seq<(usize, Tile)>, Seq<Vec3i>, Seq<LiquidAddition>);

/// The liquid of the tile at index `idx` moves, its neighbors tried in the order `ns`.
pub open spec fn flow_step(st: PassState, d: Vec3i, idx: usize, ns: Seq<Vec3i>) -> PassState {
    let c = spec_decode(d, idx as int);
    let t = st.0[idx as int];
    if t.liquid is None {
        st
    } else {
        let f = spec_flow(st.0, d, c, ns);
        let t2 = Tile { liquid: f.0, ..t };
        (
            st.0.update(idx as int, t2),
            if f.3 { st.1.push((idx, tile_copy(t2))) } else { st.1 },
            st.2 + repeat(c, f.2),
            st.3 + f.1,
        )
    }
}

/// The first `k` tiles of `idxs` move their liquid, in order, the `j`th trying its neighbors in the order `orders[j]`.
pub open spec fn flow_pass(st: PassState, d: Vec3i, idxs: Seq<usize>, orders: Seq<Seq<Vec3i>>, k: int) -> PassState
    decreases k,
{
    if k <= 0 {
        st
    } else {
        flow_step(flow_pass(st, d, idxs, orders, k - 1), d, idxs[k - 1], orders[k - 1])
    }
}

/// The tiles with liquid are forgotten by `has` once the first `k` removals left them dry.
pub open spec fn removal_pass(has: Set<usize>, tiles: Seq<Tile>, d: Vec3i, rems: Seq<Vec3i>, k: int) -> Set<usize>
    decreases k,
{
    if k <= 0 {
        has
    } else {
        let prev = removal_pass(has, tiles, d, rems, k - 1);
        let c = rems[k - 1];
        if tile_at(tiles, d, c).liquid is None {
            prev.remove(spec_encode(d, c) as usize)
        } else {
            prev
        }
    }
}

/// The state of the additions: tiles, changes recorded, and tiles with liquid.
pub type AddState = (Seq<Tile>, Seq<(usize, Tile)>, Set<usize>);

/// The first `k` additions are made, each recording the tile it changes.
pub open spec fn addition_pass(st: AddState, d: Vec3i, adds: Seq<LiquidAddition>, k: int) -> AddState
    decreases k,
{
    if k <= 0 {
        st
    } else {
        let prev = addition_pass(st, d, adds, k - 1);
        let a = adds[k - 1];
        let i = spec_encode(d, a.coord);
        let t = prev.0[i];
        (
            prev.0.update(i, Tile { liquid: spec_add_liquid(t.liquid, a.liquid.material, a.depth), ..t }),
            prev.1.push((i as usize, tile_copy(t))),
            prev.2.insert(i as usize),
        )
    }
}

/// Every liquid of `tiles` is of material `m` and lies strictly between
/// the top and bottom levels.
pub open spec fn liquids_placed(tiles: Seq<Tile>, d: Vec3i, m: crate::defs::MaterialDefinitionId) -> bool {
    forall|i: int| 0 <= i < tiles.len() ==> ((#[trigger] tiles[i]).liquid matches Some(l) ==> {
        &&& l.material == m
        &&& 1 <= spec_decode(d, i).z
        &&& spec_decode(d, i).z + 1 < d.z
    })
}

/// Spreading keeps the liquid's material and adds liquid of the source's or a neighbor's material.
proof fn lemma_spread_material(tiles: Seq<Tile>, d: Vec3i, ns: Seq<Vec3i>, k: int, src: TileLiquid, st: SpreadState,
    m: crate::defs::MaterialDefinitionId)
    requires
        src.material == m,
        st.0 matches Some(l) ==> l.material == m,
        forall|i: int| 0 <= i < st.1.len() ==> (#[trigger] st.1[i]).liquid.material == m,
        forall|i: int| 0 <= i < ns.len() ==> ((#[trigger] tile_at(tiles, d, ns[i])).liquid matches Some(l) ==> l.material == m),
    ensures
        ({
            let r = spread(tiles, d, ns, k, src, st);
            &&& r.0 matches Some(l) ==> l.material == m
            &&& forall|i: int| 0 <= i < r.1.len() ==> (#[trigger] r.1[i]).liquid.material == m
            &&& r.1.len() <= st.1.len() + (if k < ns.len() { ns.len() - k } else { 0 })
            &&& r.2 == st.2 + (r.1.len() - st.1.len())
            &&& r.1.len() >= st.1.len()
        }),
    decreases ns.len() - k,
{
    if k >= ns.len() || k < 0 {
    } else {
        let t = tile_at(tiles, d, ns[k]);
        if t.spec_is_solid() {
            lemma_spread_material(tiles, d, ns, k + 1, src, st, m);
        } else {
            match t.liquid {
                Some(tl) => {
                    if tl.depth < MAX_LIQUID_DEPTH - MIN_DEPTH_DISPERSION {
                        assert(tile_at(tiles, d, ns[k]).liquid == Some(tl));
                    } else {
                        lemma_spread_material(tiles, d, ns, k + 1, src, st, m);
                    }
                },
                None => {
                    let dd = min_u8(MIN_DEPTH_DISPERSION, src.depth);
                    let st2 = (spec_drained(st.0, dd), st.1.push(LiquidAddition { coord: ns[k], depth: dd, liquid: src }), st.2 + 1, true);
                    assert forall|i: int| 0 <= i < st2.1.len() implies (#[trigger] st2.1[i]).liquid.material == m by {
                        if i < st.1.len() {
                            assert(st2.1[i] == st.1[i]);
                        }
                    }
                    lemma_spread_material(tiles, d, ns, k + 1, src, st2, m);
                },
            }
        }
    }
}

/// The flow of a tile keeps its liquid's material, adds only liquid of
/// that material, makes at most 10 additions over at most 8 neighbors,
/// and takes liquid once per addition.
proof fn lemma_flow_material(tiles: Seq<Tile>, d: Vec3i, c: Vec3i, ns: Seq<Vec3i>, m: crate::defs::MaterialDefinitionId)
    requires
        ns.len() <= 8,
        tile_at(tiles, d, c).liquid matches Some(l) ==> l.material == m,
        forall|i: int| 0 <= i < ns.len() ==> ((#[trigger] tile_at(tiles, d, ns[i])).liquid matches Some(l) ==> l.material == m),
    ensures
        ({
            let f = spec_flow(tiles, d, c, ns);
            &&& f.0 matches Some(l) ==> l.material == m
            &&& forall|i: int| 0 <= i < f.1.len() ==> (#[trigger] f.1[i]).liquid.material == m
            &&& f.1.len() <= 10
            &&& f.2 == f.1.len()
            &&& tile_at(tiles, d, c).liquid is None ==> f.0 is None
            &&& f.0 matches Some(l) ==> tile_at(tiles, d, c).liquid is Some
        }),
{
    let tile = tile_at(tiles, d, c);
    match tile.liquid {
        None => {},
        Some(src) => {
            let falls = tile.spec_is_empty() && crate::tile::spec_liquid_depth(tile_at(tiles, d, below(c))) < MAX_LIQUID_DEPTH;
            let fall_depth = (MAX_LIQUID_DEPTH - crate::tile::spec_liquid_depth(tile_at(tiles, d, below(c)))) as u8;
            let st0: SpreadState = if falls {
                (spec_drained(Some(src), fall_depth), seq![LiquidAddition { coord: below(c), depth: fall_depth, liquid: src }], 1, false)
            } else {
                (Some(src), Seq::empty(), 0, false)
            };
            assert forall|i: int| 0 <= i < st0.1.len() implies (#[trigger] st0.1[i]).liquid.material == m by {}
            lemma_spread_material(tiles, d, ns, 0, src, st0, m);
        },
    }
}

/// Spreading adds liquid only to the neighbors.
proof fn lemma_spread_coords(tiles: Seq<Tile>, d: Vec3i, ns: Seq<Vec3i>, k: int, src: TileLiquid, st: SpreadState)
    requires
        forall|i: int| 0 <= i < st.1.len() ==> in_bounds(d, (#[trigger] st.1[i]).coord),
        forall|i: int| 0 <= i < ns.len() ==> in_bounds(d, #[trigger] ns[i]),
    ensures
        forall|i: int| 0 <= i < spread(tiles, d, ns, k, src, st).1.len()
            ==> in_bounds(d, (#[trigger] spread(tiles, d, ns, k, src, st).1[i]).coord),
    decreases ns.len() - k,
{
    if k >= ns.len() || k < 0 {
        assert(spread(tiles, d, ns, k, src, st) == st);
    } else {
        let t = tile_at(tiles, d, ns[k]);
        if t.spec_is_solid() {
            assert(spread(tiles, d, ns, k, src, st) == spread(tiles, d, ns, k + 1, src, st));
            lemma_spread_coords(tiles, d, ns, k + 1, src, st);
        } else {
            match t.liquid {
                Some(tl) => {
                    if tl.depth < MAX_LIQUID_DEPTH - MIN_DEPTH_DISPERSION {
                        let r = spread(tiles, d, ns, k, src, st);
                        let dd = min_u8(MIN_DEPTH_DISPERSION, tl.depth);
                        assert(r.1 == st.1.push(LiquidAddition { coord: ns[k], depth: dd, liquid: tl }));
                        assert forall|i: int| 0 <= i < r.1.len() implies in_bounds(d, (#[trigger] r.1[i]).coord) by {
                            if i < st.1.len() {
                                assert(r.1[i] == st.1[i]);
                            } else {
                                assert(in_bounds(d, ns[k]));
                            }
                        }
                    } else {
                        assert(spread(tiles, d, ns, k, src, st) == spread(tiles, d, ns, k + 1, src, st));
                        lemma_spread_coords(tiles, d, ns, k + 1, src, st);
                    }
                },
                None => {
                    let dd = min_u8(MIN_DEPTH_DISPERSION, src.depth);
                    let st2 = (spec_drained(st.0, dd), st.1.push(LiquidAddition { coord: ns[k], depth: dd, liquid: src }), st.2 + 1, true);
                    assert forall|i: int| 0 <= i < st2.1.len() implies in_bounds(d, (#[trigger] st2.1[i]).coord) by {
                        if i < st.1.len() {
                            assert(st2.1[i] == st.1[i]);
                        }
                    }
                    assert(spread(tiles, d, ns, k, src, st) == spread(tiles, d, ns, k + 1, src, st2));
                    lemma_spread_coords(tiles, d, ns, k + 1, src, st2);
                },
            }
        }
    }
}

/// The liquid of a tile strictly between the top and bottom levels flows
/// only into tiles of the map.
proof fn lemma_flow_coords(tiles: Seq<Tile>, d: Vec3i, c: Vec3i, ns: Seq<Vec3i>)
    requires
        in_bounds(d, c),
        1 <= c.z,
        c.z + 1 < d.z,
        forall|i: int| 0 <= i < ns.len() ==> in_bounds(d, #[trigger] ns[i]),
    ensures
        forall|i: int| 0 <= i < spec_flow(tiles, d, c, ns).1.len()
            ==> in_bounds(d, (#[trigger] spec_flow(tiles, d, c, ns).1[i]).coord),
{
    let tile = tile_at(tiles, d, c);
    match tile.liquid {
        None => {
            assert(spec_flow(tiles, d, c, ns).1 =~= Seq::<LiquidAddition>::empty());
        },
        Some(src) => {
            let falls = tile.spec_is_empty() && crate::tile::spec_liquid_depth(tile_at(tiles, d, below(c))) < MAX_LIQUID_DEPTH;
            let fall_depth = (MAX_LIQUID_DEPTH - crate::tile::spec_liquid_depth(tile_at(tiles, d, below(c)))) as u8;
            let st0: SpreadState = if falls {
                (spec_drained(Some(src), fall_depth), seq![LiquidAddition { coord: below(c), depth: fall_depth, liquid: src }], 1, false)
            } else {
                (Some(src), Seq::empty(), 0, false)
            };
            assert forall|i: int| 0 <= i < st0.1.len() implies in_bounds(d, (#[trigger] st0.1[i]).coord) by {}
            lemma_spread_coords(tiles, d, ns, 0, src, st0);
            let f = spec_flow(tiles, d, c, ns);
            if src.depth > MIN_DEPTH_DISPERSION {
                match first_open(tiles, d, ns, 0) {
                    Some(k) => {
                        lemma_first_open_range(tiles, d, ns, 0);
                        assert forall|i: int| 0 <= i < f.1.len() implies in_bounds(d, (#[trigger] f.1[i]).coord) by {
                            if i < st0.1.len() {
                                assert(f.1[i] == st0.1[i]);
                            }
                        }
                    },
                    None => {
                        let st1 = spread(tiles, d, ns, 0, src, st0);
                        assert forall|i: int| 0 <= i < f.1.len() implies in_bounds(d, (#[trigger] f.1[i]).coord) by {
                            if i < st1.1.len() {
                                assert(f.1[i] == st1.1[i]);
                            }
                        }
                    },
                }
            }
        },
    }
}

/// The position `first_open` finds is a position of `ns`.
proof fn lemma_first_open_range(tiles: Seq<Tile>, d: Vec3i, ns: Seq<Vec3i>, k: int)
    ensures
        first_open(tiles, d, ns, k) matches Some(j) ==> k <= j < ns.len() && 0 <= j,
    decreases ns.len() - k,
{
    if k >= ns.len() || k < 0 {
    } else if open_to_fall(tiles, d, ns[k]) {
    } else {
        lemma_first_open_range(tiles, d, ns, k + 1);
    }
}

/// The pass over the first `k` tiles depends on the first `k` orders only.
proof fn lemma_flow_pass_prefix(st: PassState, d: Vec3i, idxs: Seq<usize>, o1: Seq<Seq<Vec3i>>, o2: Seq<Seq<Vec3i>>, k: int)
    requires
        forall|j: int| 0 <= j < k ==> o1[j] == o2[j],
    ensures
        flow_pass(st, d, idxs, o1, k) == flow_pass(st, d, idxs, o2, k),
    decreases k,
{
    if k > 0 {
        lemma_flow_pass_prefix(st, d, idxs, o1, o2, k - 1);
    }
}

/// The tiles, the recorded changes and the tiles with liquid after the
/// liquid of the tiles at `idxs` moved, the `k`th trying its neighbors in
/// the order `orders[k]`: first every tile moves in turn, then the dried
/// tiles are forgotten, then the additions are made.
pub open spec fn liquid_outcome(tiles: Seq<Tile>, dirty: Seq<(usize, Tile)>, has: Set<usize>, d: Vec3i,
    idxs: Seq<usize>, orders: Seq<Seq<Vec3i>>) -> AddState
{
    let p = flow_pass((tiles, dirty, Seq::empty(), Seq::empty()), d, idxs, orders, idxs.len() as int);
    let has1 = removal_pass(has, p.0, d, p.2, p.2.len() as int);
    addition_pass((p.0, p.1, has1), d, p.3, p.3.len() as int)
}

/// One pass of liquid dynamics over the tiles at storage indices
/// `indices` (the tiles noted as holding liquid): each tile's liquid
/// moves in turn, its neighbors tried in a random order; then tiles left
/// dry are forgotten and the moved liquid is added where it went. All
/// liquid is of one material and lies strictly between the top and bottom
/// levels.
pub fn liquid_dynamics(map: &mut TileMap, indices: &Vec<usize>)
    requires
        old(map).wf(),
        forall|k: int| 0 <= k < indices.len() ==> #[trigger] indices[k] < old(map).tiles().len(),
        exists|m: crate::defs::MaterialDefinitionId| liquids_placed(old(map).tiles(), old(map).spec_dimensions(), m),
        old(map).spec_version().version + 11 * indices.len() <= u64::MAX,
    ensures
        final(map).wf(),
        final(map).spec_dimensions() == old(map).spec_dimensions(),
        final(map).spec_height_map() == old(map).spec_height_map(),
        final(map).spec_sprite_dimensions() == old(map).spec_sprite_dimensions(),
        final(map).spec_version().version == old(map).spec_version().version
            + (final(map).spec_version().dirty@.len() - old(map).spec_version().dirty@.len()),
        exists|orders: Seq<Seq<Vec3i>>| {
            &&& orders.len() == indices.len()
            &&& forall|k: int| 0 <= k < orders.len() ==> (#[trigger] orders[k]).to_multiset()
                == spec_neighbors(old(map).spec_dimensions(), spec_decode(old(map).spec_dimensions(), indices[k] as int)).to_multiset()
            &&& liquid_outcome(old(map).tiles(), old(map).spec_version().dirty@, old(map).spec_has_liquid(),
                    old(map).spec_dimensions(), indices@, orders)
                == (final(map).tiles(), final(map).spec_version().dirty@, final(map).spec_has_liquid())
        },
{
    let ghost d = map.spec_dimensions();
    proof {
        map.lemma_wf_facts();
    }
    let ghost m = choose|m: crate::defs::MaterialDefinitionId| liquids_placed(map.tiles(), d, m);
    let ghost init: PassState = (map.tiles(), map.spec_version().dirty@, Seq::empty(), Seq::empty());
    let ghost v0 = map.spec_version().version;
    let ghost n0 = map.spec_version().dirty@.len();
    let ghost hm0 = map.spec_height_map();
    let ghost sd0 = map.spec_sprite_dimensions();
    let ghost has0 = map.spec_has_liquid();
    let ghost mut orders: Seq<Seq<Vec3i>> = Seq::empty();
    let mut removals: Vec<Vec3i> = Vec::new();
    let mut additions: Vec<LiquidAddition> = Vec::new();
    let mut k: usize = 0;
    while k < indices.len()
        invariant
            map.wf(),
            map.spec_dimensions() == d,
            map.spec_height_map() == hm0,
            map.spec_sprite_dimensions() == sd0,
            map.spec_has_liquid() == has0,
            valid_dimensions(d),
            map.tiles().len() == map_size(d),
            k <= indices.len(),
            forall|j: int| 0 <= j < indices.len() ==> #[trigger] indices[j] < map.tiles().len(),
            v0 + 11 * indices.len() <= u64::MAX,
            orders.len() == k,
            forall|j: int| 0 <= j < orders.len() ==> (#[trigger] orders[j]).to_multiset()
                == spec_neighbors(d, spec_decode(d, indices[j] as int)).to_multiset(),
            flow_pass(init, d, indices@, orders, k as int) == (map.tiles(), map.spec_version().dirty@, removals@, additions@),
            map.spec_version().dirty@.len() >= n0,
            map.spec_version().version == v0 + (map.spec_version().dirty@.len() - n0),
            map.spec_version().dirty@.len() - n0 <= k,
            additions@.len() <= 10 * k,
            liquids_placed(map.tiles(), d, m),
            forall|j: int| 0 <= j < additions@.len() ==> (#[trigger] additions@[j]).liquid.material == m
                && in_bounds(d, additions@[j].coord),
            forall|j: int| 0 <= j < removals@.len() ==> in_bounds(d, #[trigger] removals@[j]),
        decreases indices.len() - k,
    {
        let idx = indices[k];
        proof {
            lemma_decode_in_map(d, idx as int);
        }
        let coord = map.encoder().decode(idx);
        proof {
            map.lemma_in_bounds_valid(coord);
        }
        let has = map.get(coord).liquid.is_some();
        if has {
            let mut ns = map.neighbors(&coord);
            let ghost ns0 = coords8(ns);
            ns.shuffle();
            proof {
                lemma_neighbors_in_bounds(d, coord);
                ns0.to_multiset_ensures();
                coords8(ns).to_multiset_ensures();
                assert forall|i: int| 0 <= i < coords8(ns).len() implies in_bounds(d, #[trigger] coords8(ns)[i]) && coords8(ns)[i].z == coord.z by {
                    assert(coords8(ns).contains(coords8(ns)[i]));
                    assert(coords8(ns).to_multiset().count(coords8(ns)[i]) > 0);
                    assert(ns0.contains(coords8(ns)[i]));
                }
                assert(coords8(ns).len() == ns0.len());
                let t = map.spec_get(coord);
                assert(map.tiles()[idx as int] == t);
                assert(t.liquid is Some);
                assert forall|i: int| 0 <= i < coords8(ns).len() implies
                    ((#[trigger] tile_at(map.tiles(), d, coords8(ns)[i])).liquid matches Some(l) ==> l.material == m) by {
                    lemma_index_in_range(d, coords8(ns)[i]);
                    let ii = spec_encode(d, coords8(ns)[i]);
                    assert(map.tiles()[ii] == tile_at(map.tiles(), d, coords8(ns)[i]));
                }
                lemma_flow_material(map.tiles(), d, coord, coords8(ns), m);
                lemma_flow_coords(map.tiles(), d, coord, coords8(ns));
            }
            let flow = liquid_flow(map, coord, &ns);
            let ghost before = map.tiles();
            map.set_liquid_untracked(coord, flow.liquid);
            proof {
                assert forall|i: int| 0 <= i < map.tiles().len() implies ((#[trigger] map.tiles()[i]).liquid matches Some(l) ==> {
                    &&& l.material == m
                    &&& 1 <= spec_decode(d, i).z
                    &&& spec_decode(d, i).z + 1 < d.z
                }) by {
                    if i == idx as int {
                    } else {
                        assert(map.tiles()[i] == before[i]);
                    }
                }
            }
            if flow.dirty {
                map.mark_dirty(coord);
            }
            let mut r: usize = 0;
            let ghost rem0 = removals@;
            while r < flow.removals
                invariant
                    r <= flow.removals,
                    flow.removals <= 10,
                    removals@ == rem0 + repeat(coord, r as nat),
                    in_bounds(d, coord),
                    forall|j: int| 0 <= j < rem0.len() ==> in_bounds(d, #[trigger] rem0[j]),
                decreases flow.removals - r,
            {
                removals.push(coord);
                r = r + 1;
                proof {
                    assert(removals@ =~= rem0 + repeat(coord, r as nat));
                }
            }
            let mut adds = flow.additions;
            let ghost add0 = additions@;
            additions.append(&mut adds);
            proof {
                let st = flow_pass(init, d, indices@, orders, k as int);
                assert(spec_encode(d, coord) == idx as int);
                assert(st.0[idx as int].liquid is Some);
                let f = spec_flow(st.0, d, coord, coords8(ns));
                let t2 = Tile { liquid: f.0, ..st.0[idx as int] };
                assert(map.tiles() == st.0.update(idx as int, t2));
                assert(removals@ == st.2 + repeat(coord, f.2));
                assert(additions@ == st.3 + f.1);
                assert(map.spec_version().dirty@ == (if f.3 { st.1.push((idx, tile_copy(t2))) } else { st.1 }));
                let old_orders = orders;
                orders = orders.push(coords8(ns));
                lemma_flow_pass_prefix(init, d, indices@, old_orders, orders, k as int);
                assert(flow_pass(init, d, indices@, orders, k as int + 1)
                    == flow_step(flow_pass(init, d, indices@, orders, k as int), d, indices@[k as int], orders[k as int]));
                assert forall|j: int| 0 <= j < removals@.len() implies in_bounds(d, #[trigger] removals@[j]) by {
                    if j >= rem0.len() {
                        assert(removals@[j] == coord);
                    }
                }
            }
        } else {
            proof {
                let old_orders = orders;
                orders = orders.push(spec_neighbors(d, spec_decode(d, idx as int)));
                lemma_flow_pass_prefix(init, d, indices@, old_orders, orders, k as int);
                assert(spec_encode(d, coord) == idx as int);
                let st = flow_pass(init, d, indices@, orders, k as int);
                assert(st.0[idx as int].liquid is None);
                assert(flow_pass(init, d, indices@, orders, k as int + 1)
                    == flow_step(st, d, indices@[k as int], orders[k as int]));
            }
        }
        proof {
            assert forall|j: int| 0 <= j < orders.len() implies (#[trigger] orders[j]).to_multiset()
                == spec_neighbors(d, spec_decode(d, indices[j] as int)).to_multiset() by {
            }
        }
        k = k + 1;
    }
    let ghost p = flow_pass(init, d, indices@, orders, indices.len() as int);
    // Forget the tiles left dry.
    let mut j: usize = 0;
    while j < removals.len()
        invariant
            map.wf(),
            map.spec_dimensions() == d,
            map.spec_height_map() == hm0,
            map.spec_sprite_dimensions() == sd0,
            valid_dimensions(d),
            p == (map.tiles(), map.spec_version().dirty@, removals@, additions@),
            map.spec_version().version == v0 + (map.spec_version().dirty@.len() - n0),
            map.spec_version().dirty@.len() >= n0,
            j <= removals.len(),
            map.spec_has_liquid() == removal_pass(has0, p.0, d, removals@, j as int),
            forall|i: int| 0 <= i < removals@.len() ==> in_bounds(d, #[trigger] removals@[i]),
        decreases removals.len() - j,
    {
        let c = removals[j];
        proof {
            map.lemma_in_bounds_valid(c);
        }
        map.update_liquid(c);
        j = j + 1;
    }
    let ghost has1 = map.spec_has_liquid();
    // Add the liquid that moved.
    let mut a: usize = 0;
    while a < additions.len()
        invariant
            map.wf(),
            map.spec_dimensions() == d,
            map.spec_height_map() == hm0,
            map.spec_sprite_dimensions() == sd0,
            valid_dimensions(d),
            a <= additions.len(),
            additions@ == p.3,
            additions@.len() <= 10 * indices.len(),
            p.1.len() - n0 <= indices.len(),
            p.1.len() >= n0,
            v0 + 11 * indices.len() <= u64::MAX,
            (map.tiles(), map.spec_version().dirty@, map.spec_has_liquid())
                == addition_pass((p.0, p.1, has1), d, additions@, a as int),
            map.spec_version().dirty@.len() == p.1.len() + a,
            map.spec_version().version == v0 + (map.spec_version().dirty@.len() - n0),
            forall|i: int| 0 <= i < map.tiles().len() ==> ((#[trigger] map.tiles()[i]).liquid matches Some(l) ==> l.material == m),
            forall|i: int| 0 <= i < additions@.len() ==> (#[trigger] additions@[i]).liquid.material == m
                && in_bounds(d, additions@[i].coord),
        decreases additions.len() - a,
    {
        let add = additions[a];
        proof {
            map.lemma_in_bounds_valid(add.coord);
            lemma_index_in_range(d, add.coord);
            assert(map.tiles()[spec_encode(d, add.coord)] == map.spec_get(add.coord));
        }
        let ghost before = map.tiles();
        map.add_liquid_to_tile(add.coord, add.liquid.material, add.depth);
        map.add_liquid(add.coord);
        proof {
            assert forall|i: int| 0 <= i < map.tiles().len() implies ((#[trigger] map.tiles()[i]).liquid matches Some(l) ==> l.material == m) by {
                if i != spec_encode(d, add.coord) {
                    assert(map.tiles()[i] == before[i]);
                }
            }
        }
        a = a + 1;
    }
}

} // verus!

verus! {

/// The storage indices of the first `n` tiles that hold liquid, in order.
pub open spec fn liquid_positions(tiles: Seq<Tile>, n: int) -> Seq<usize>
    decreases n,
{
    if n <= 0 {
        Seq::empty()
    } else if tiles[n - 1].liquid is Some {
        liquid_positions(tiles, n - 1).push((n - 1) as usize)
    } else {
        liquid_positions(tiles, n - 1)
    }
}

/// Whether the liquid of tile `i` is of material `m` and lies strictly
/// between the top and bottom levels (or the tile holds none).
pub open spec fn liquid_placed_at(tiles: Seq<Tile>, d: Vec3i, m: crate::defs::MaterialDefinitionId, i: int) -> bool {
    tiles[i].liquid matches Some(l) ==> {
        &&& l.material == m
        &&& 1 <= spec_decode(d, i).z
        &&& spec_decode(d, i).z + 1 < d.z
    }
}

/// The indices of the tiles holding liquid, in storage order, when all the
/// liquid of the map is of one material and lies strictly between the top
/// and bottom levels, as a liquid pass asks; `None` when it does not.
pub fn liquid_indices(map: &TileMap) -> (r: Option<Vec<usize>>)
    requires
        map.wf(),
    ensures
        match r {
            Some(v) => (exists|m: crate::defs::MaterialDefinitionId| liquids_placed(map.tiles(), map.spec_dimensions(), m))
                && v@ == liquid_positions(map.tiles(), map.tiles().len() as int),
            None => !exists|m: crate::defs::MaterialDefinitionId| liquids_placed(map.tiles(), map.spec_dimensions(), m),
        },
{
    let ghost tiles = map.tiles();
    let ghost d = map.spec_dimensions();
    proof {
        map.lemma_wf_facts();
    }
    let storage = map.storage();
    let dims = map.dimensions();
    let mut material: Option<crate::defs::MaterialDefinitionId> = None;
    let ghost mut first: int = 0;
    let mut indices: Vec<usize> = Vec::new();
    let mut i: usize = 0;
    while i < storage.len()
        invariant
            storage@ == tiles,
            map.wf(),
            map.tiles() == tiles,
            map.spec_dimensions() == d,
            d == dims,
            valid_dimensions(d),
            tiles.len() == map_size(d),
            i <= tiles.len(),
            indices@ == liquid_positions(tiles, i as int),
            material is None ==> forall|k: int| 0 <= k < i ==> (#[trigger] tiles[k]).liquid is None,
            material matches Some(m) ==> {
                &&& 0 <= first < i
                &&& tiles[first].liquid matches Some(l) && l.material == m
                &&& forall|k: int| 0 <= k < i ==> #[trigger] liquid_placed_at(tiles, d, m, k)
            },
        decreases tiles.len() - i,
    {
        match storage[i].liquid {
            Some(l) => {
                proof {
                    lemma_decode_in_map(d, i as int);
                }
                let c = map.encoder().decode(i);
                if c.z < 1 || c.z + 1 >= dims.z {
                    proof {
                        assert forall|m: crate::defs::MaterialDefinitionId| !liquids_placed(tiles, d, m) by {
                            assert(!liquid_placed_at(tiles, d, m, i as int));
                        }
                    }
                    return None;
                }
                match material {
                    None => {
                        material = Some(l.material);
                        proof {
                            first = i as int;
                        }
                    },
                    Some(m) => {
                        if m != l.material {
                            proof {
                                assert forall|x: crate::defs::MaterialDefinitionId| !liquids_placed(tiles, d, x) by {
                                    if x == m {
                                        assert(!liquid_placed_at(tiles, d, x, i as int));
                                    } else {
                                        assert(!liquid_placed_at(tiles, d, x, first));
                                    }
                                }
                            }
                            return None;
                        }
                    },
                }
                indices.push(i);
            },
            None => {},
        }
        i = i + 1;
    }
    proof {
        let m = match material {
            Some(m) => m,
            None => crate::defs::MaterialDefinitionId(0),
        };
        assert(liquids_placed(tiles, d, m)) by {
            assert forall|k: int| 0 <= k < tiles.len() implies ((#[trigger] tiles[k]).liquid matches Some(l) ==> {
                &&& l.material == m
                &&& 1 <= spec_decode(d, k).z
                &&& spec_decode(d, k).z + 1 < d.z
            }) by {
                if material is Some {
                    assert(liquid_placed_at(tiles, d, m, k));
                }
            }
        }
    }
    Some(indices)
}

} // verus!

verus! {

/// Spreading only adds: what was added before stays, first, and the
/// removals only grow.
proof fn lemma_spread_keeps(tiles: Seq<Tile>, d: Vec3i, ns: Seq<Vec3i>, k: int, src: TileLiquid, st: SpreadState)
    ensures
        spread(tiles, d, ns, k, src, st).1.len() >= st.1.len(),
        forall|i: int| 0 <= i < st.1.len() ==> #[trigger] spread(tiles, d, ns, k, src, st).1[i] == st.1[i],
        spread(tiles, d, ns, k, src, st).2 >= st.2,
    decreases ns.len() - k,
{
    if k >= ns.len() || k < 0 {
    } else {
        let t = tile_at(tiles, d, ns[k]);
        if t.spec_is_solid() {
            lemma_spread_keeps(tiles, d, ns, k + 1, src, st);
        } else {
            match t.liquid {
                Some(tl) => if tl.depth < MAX_LIQUID_DEPTH - MIN_DEPTH_DISPERSION {
                } else {
                    lemma_spread_keeps(tiles, d, ns, k + 1, src, st);
                },
                None => {
                    let dd = min_u8(MIN_DEPTH_DISPERSION, src.depth);
                    let st2 = (spec_drained(st.0, dd), st.1.push(LiquidAddition { coord: ns[k], depth: dd, liquid: src }), st.2 + 1, true);
                    lemma_spread_keeps(tiles, d, ns, k + 1, src, st2);
                    assert forall|i: int| 0 <= i < st.1.len() implies #[trigger] spread(tiles, d, ns, k, src, st).1[i] == st.1[i] by {
                        assert(st2.1[i] == st.1[i]);
                    }
                },
            }
        }
    }
}

/// Liquid in open air falls first: when the tile at `c` is empty and
/// holds liquid `src`, and the tile right below it holds less than the
/// full depth, the first thing the flow does is to take from the tile and
/// add to the tile below what that one lacks of the full depth, whatever
/// the depth of `src`.
pub proof fn lemma_liquid_falls_first(tiles: Seq<Tile>, d: Vec3i, c: Vec3i, ns: Seq<Vec3i>)
    requires
        tile_at(tiles, d, c).liquid is Some,
        tile_at(tiles, d, c).kind == crate::tile::TileKind::Empty,
        crate::tile::spec_liquid_depth(tile_at(tiles, d, Vec3i { x: c.x, y: c.y, z: (c.z + 1) as i32 })) < MAX_LIQUID_DEPTH,
    ensures
        ({
            let f = spec_flow(tiles, d, c, ns);
            let b = Vec3i { x: c.x, y: c.y, z: (c.z + 1) as i32 };
            &&& f.1.len() >= 1
            &&& f.1[0] == (LiquidAddition {
                coord: b,
                depth: (MAX_LIQUID_DEPTH - crate::tile::spec_liquid_depth(tile_at(tiles, d, b))) as u8,
                liquid: tile_at(tiles, d, c).liquid.unwrap(),
            })
            &&& f.2 >= 1
        }),
{
    let tile = tile_at(tiles, d, c);
    let src = tile.liquid.unwrap();
    let fall_depth = (MAX_LIQUID_DEPTH - crate::tile::spec_liquid_depth(tile_at(tiles, d, below(c)))) as u8;
    let st0: SpreadState = (spec_drained(Some(src), fall_depth), seq![LiquidAddition { coord: below(c), depth: fall_depth, liquid: src }], 1, false);
    if src.depth > MIN_DEPTH_DISPERSION {
        match first_open(tiles, d, ns, 0) {
            Some(k) => {},
            None => {
                lemma_spread_keeps(tiles, d, ns, 0, src, st0);
                let st1 = spread(tiles, d, ns, 0, src, st0);
                assert(st1.1[0] == st0.1[0]);
            },
        }
    }
}

} // verus!

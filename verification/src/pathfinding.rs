//! Where a walker can step from a tile, and the paths a search returns.
use vstd::prelude::*;
use crate::encoders::in_bounds;
use crate::map::{TileMap, spec_neighbors, is_beside, lemma_neighbors_beside, lemma_neighbors_in_bounds, steppable, valid_dimensions};
use crate::math::Vec3i;
use crate::small::{Steps16, steps16, coords8};
use crate::tile::{Tile, TileFlag, z_transition_bit};

verus! {

/// The result of a path search: the index of the target tile, whether it
/// was reached, and each step towards it, the start included.
pub struct NavigationPath {
    pub destination: u32,
    pub success: bool,
    pub steps: Vec<u32>,
}

impl NavigationPath {
    /// An empty path that reached nothing.
    pub fn new() -> (r: NavigationPath)
        ensures
            r.destination == 0,
            !r.success,
            r.steps@ == Seq::<u32>::empty(),
    {
        NavigationPath { destination: 0, success: false, steps: Vec::with_capacity(1024) }
    }
}

/// The cost of stepping onto `c`, when it can be walked.
pub open spec fn walk_cost(map: TileMap, c: Vec3i) -> Seq<(Vec3i, u32)> {
    if map.spec_get(c).spec_is_walkable() {
        seq![(c, 100u32)]
    } else {
        Seq::empty()
    }
}

/// Whether the tile connects to the level above or below.
pub open spec fn has_transition(t: Tile) -> bool {
    t.flags.bits & z_transition_bit() == z_transition_bit()
}

/// The coordinate one level down (the level index grows downwards).
pub open spec fn below(c: Vec3i) -> Vec3i {
    Vec3i { x: c.x, y: c.y, z: (c.z + 1) as i32 }
}

/// The coordinate one level up.
pub open spec fn above(c: Vec3i) -> Vec3i {
    Vec3i { x: c.x, y: c.y, z: (c.z - 1) as i32 }
}

/// The walkable ones among `cs`, in order, each with its cost.
pub open spec fn walkable_among(map: TileMap, cs: Seq<Vec3i>) -> Seq<(Vec3i, u32)>
    decreases cs.len(),
{
    if cs.len() == 0 {
        Seq::empty()
    } else {
        walkable_among(map, cs.drop_last()) + walk_cost(map, cs.last())
    }
}

/// The steps a neighbor `n` offers: through an empty neighbor, the tile
/// below it when that one connects levels; through a ramp off the top
/// level, the walkable neighbors of the tile above it; and the neighbor
/// itself when walkable.
pub open spec fn steps_via(map: TileMap, n: Vec3i) -> Seq<(Vec3i, u32)> {
    let t = map.spec_get(n);
    if t.spec_is_empty() {
        if has_transition(map.spec_get(below(n))) {
            walk_cost(map, below(n))
        } else {
            Seq::empty()
        }
    } else {
        (if n.z > 0 && has_transition(t) {
            walkable_among(map, spec_neighbors(map.spec_dimensions(), above(n)))
        } else {
            Seq::empty()
        }) + walk_cost(map, n)
    }
}

/// The steps offered by each of `ns`, in order.
pub open spec fn path_steps(map: TileMap, ns: Seq<Vec3i>) -> Seq<(Vec3i, u32)>
    decreases ns.len(),
{
    if ns.len() == 0 {
        Seq::empty()
    } else {
        path_steps(map, ns.drop_last()) + steps_via(map, ns.last())
    }
}

/// The tiles below the empty neighbors of `coord` lie in the map.
pub open spec fn below_in_map(map: TileMap, coord: Vec3i) -> bool {
    forall|i: int|
        0 <= i < spec_neighbors(map.spec_dimensions(), coord).len() && #[trigger] map.spec_get(
            spec_neighbors(map.spec_dimensions(), coord)[i],
        ).spec_is_empty() ==> coord.z + 1 < map.spec_dimensions().z
}

/// Appends `c` with its cost when it can be walked.
fn push_cost(map: &TileMap, c: Vec3i, res: &mut Steps16)
    requires
        map.wf(),
        in_bounds(map.spec_dimensions(), c),
    ensures
        steps16(*final(res)) == steps16(*old(res)) + walk_cost(*map, c),
{
    proof {
        map.lemma_in_bounds_valid(c);
    }
    match map.get(c).movement_cost() {
        Some(cost) => {
            res.push((c, cost));
        },
        None => {
            proof {
                assert(steps16(*res) + Seq::<(Vec3i, u32)>::empty() == steps16(*res));
            }
        },
    }
}

/// Coordinates inside the map can be stepped from.
proof fn lemma_in_map_steppable(map: TileMap, c: Vec3i)
    requires
        map.wf(),
        in_bounds(map.spec_dimensions(), c),
    ensures
        steppable(c),
{
    map.lemma_wf_facts();
}

/// The tiles a walker on `coord` can step onto, each with its cost, see
/// `steps_via`: for each horizontal neighbor in turn, the steps it offers.
pub fn neighbors(map: &TileMap, coord: &Vec3i) -> (r: Steps16)
    requires
        map.wf(),
        in_bounds(map.spec_dimensions(), *coord),
        below_in_map(*map, *coord),
    ensures
        steps16(r) == path_steps(*map, spec_neighbors(map.spec_dimensions(), *coord)),
{
    let ghost d = map.spec_dimensions();
    proof {
        map.lemma_wf_facts();
        lemma_in_map_steppable(*map, *coord);
        lemma_neighbors_in_bounds(d, *coord);
    }
    let ns = map.neighbors(coord);
    let ghost nseq = coords8(ns);
    let mut res = Steps16::new();
    let mut i: usize = 0;
    let n_len = ns.len();
    while i < n_len
        invariant
            map.wf(),
            d == map.spec_dimensions(),
            valid_dimensions(d),
            in_bounds(d, *coord),
            below_in_map(*map, *coord),
            nseq == coords8(ns),
            nseq == spec_neighbors(d, *coord),
            n_len == nseq.len(),
            i <= n_len,
            forall|v: Vec3i| nseq.contains(v) ==> in_bounds(d, v) && v.z == coord.z,
            steps16(res) == path_steps(*map, nseq.subrange(0, i as int)),
        decreases n_len - i,
    {
        let n = ns.get(i);
        proof {
            assert(nseq.contains(n));
            map.lemma_in_bounds_valid(n);
            let sub = nseq.subrange(0, i + 1);
            assert(sub.drop_last() == nseq.subrange(0, i as int));
            assert(sub.last() == n);
        }
        let ghost before = steps16(res);
        let tile = map.get(n);
        if tile.is_empty() {
            proof {
                assert(map.spec_get(nseq[i as int]).spec_is_empty());
            }
            let b = Vec3i::new(n.x, n.y, n.z + 1);
            proof {
                map.lemma_in_bounds_valid(b);
            }
            let below_tile = map.get(b);
            if below_tile.flags.contains(TileFlag::has_z_transition()) {
                push_cost(map, b, &mut res);
            } else {
                proof {
                    assert(before + Seq::<(Vec3i, u32)>::empty() == before);
                }
            }
        } else {
            let ghost mid = steps16(res);
            if n.z > 0 && tile.flags.contains(TileFlag::has_z_transition()) && tile.flags.contains(
                TileFlag::has_z_transition(),
            ) {
                let a = Vec3i::new(n.x, n.y, n.z - 1);
                proof {
                    lemma_in_map_steppable(*map, a);
                    lemma_neighbors_in_bounds(d, a);
                }
                let above_ns = map.neighbors(&a);
                let ghost aseq = coords8(above_ns);
                let a_len = above_ns.len();
                let mut j: usize = 0;
                while j < a_len
                    invariant
                        map.wf(),
                        d == map.spec_dimensions(),
                        aseq == coords8(above_ns),
                        aseq == spec_neighbors(d, a),
                        a_len == aseq.len(),
                        j <= a_len,
                        forall|v: Vec3i| aseq.contains(v) ==> in_bounds(d, v) && v.z == a.z,
                        steps16(res) == before + walkable_among(*map, aseq.subrange(0, j as int)),
                    decreases a_len - j,
                {
                    let an = above_ns.get(j);
                    proof {
                        assert(aseq.contains(an));
                        map.lemma_in_bounds_valid(an);
                        let sub = aseq.subrange(0, j + 1);
                        assert(sub.drop_last() == aseq.subrange(0, j as int));
                        assert(sub.last() == an);
                    }
                    if map.get(an).is_walkable() {
                        push_cost(map, an, &mut res);
                        proof {
                            assert(before + walkable_among(*map, aseq.subrange(0, j as int)) + walk_cost(*map, an)
                                == before + (walkable_among(*map, aseq.subrange(0, j as int)) + walk_cost(*map, an)));
                        }
                    } else {
                        proof {
                            assert(walk_cost(*map, an) == Seq::<(Vec3i, u32)>::empty());
                            assert(walkable_among(*map, aseq.subrange(0, j as int)) + Seq::<(Vec3i, u32)>::empty()
                                == walkable_among(*map, aseq.subrange(0, j as int)));
                        }
                    }
                    j = j + 1;
                }
                proof {
                    assert(aseq.subrange(0, a_len as int) == aseq);
                }
            } else {
                proof {
                    assert(before + Seq::<(Vec3i, u32)>::empty() == before);
                }
            }
            let ghost after_above = steps16(res);
            push_cost(map, n, &mut res);
            proof {
                let extra = if n.z > 0 && has_transition(map.spec_get(n)) {
                    walkable_among(*map, spec_neighbors(d, above(n)))
                } else {
                    Seq::empty()
                };
                assert(after_above == before + extra);
                assert(before + extra + walk_cost(*map, n) == before + (extra + walk_cost(*map, n)));
            }
        }
        proof {
            assert(steps16(res) == before + steps_via(*map, n));
        }
        i = i + 1;
    }
    proof {
        assert(nseq.subrange(0, n_len as int) == nseq);
    }
    res
}

/// What a concatenation contains.
proof fn lemma_contains_concat<A>(a: Seq<A>, b: Seq<A>, v: A)
    ensures
        (a + b).contains(v) <==> (a.contains(v) || b.contains(v)),
{
    if a.contains(v) {
        let i = choose|i: int| 0 <= i < a.len() && a[i] == v;
        assert((a + b)[i] == v);
    }
    if b.contains(v) {
        let j = choose|j: int| 0 <= j < b.len() && b[j] == v;
        assert((a + b)[a.len() + j] == v);
    }
    if (a + b).contains(v) {
        let i = choose|i: int| 0 <= i < (a + b).len() && (a + b)[i] == v;
        if i < a.len() {
            assert(a[i] == v);
        } else {
            assert(b[i - a.len()] == v);
        }
    }
}

/// A sequence holds what its front holds and its last item.
proof fn lemma_contains_split<A>(cs: Seq<A>, v: A)
    requires
        cs.len() > 0,
    ensures
        cs.contains(v) <==> (cs.drop_last().contains(v) || cs.last() == v),
{
    assert(cs == cs.drop_last() + seq![cs.last()]);
    lemma_contains_concat(cs.drop_last(), seq![cs.last()], v);
    if seq![cs.last()].contains(v) {
        assert(v == cs.last());
    }
    assert(seq![cs.last()][0] == cs.last());
}

/// The steps `walkable_among` gives are the walkable ones of `cs`, at cost 100.
proof fn lemma_walkable_among(map: TileMap, cs: Seq<Vec3i>, s: (Vec3i, u32))
    ensures
        walkable_among(map, cs).contains(s) <==> (cs.contains(s.0) && s.1 == 100 && map.spec_get(s.0).spec_is_walkable()),
    decreases cs.len(),
{
    if cs.len() > 0 {
        lemma_walkable_among(map, cs.drop_last(), s);
        lemma_contains_concat(walkable_among(map, cs.drop_last()), walk_cost(map, cs.last()), s);
        lemma_contains_split(cs, s.0);
        if walk_cost(map, cs.last()).contains(s) {
            assert(walk_cost(map, cs.last())[0] == s);
        }
        if s == (cs.last(), 100u32) && map.spec_get(cs.last()).spec_is_walkable() {
            assert(walk_cost(map, cs.last())[0] == s);
        }
    }
}

/// The steps `path_steps` gives are those some neighbor offers.
proof fn lemma_path_steps(map: TileMap, ns: Seq<Vec3i>, s: (Vec3i, u32))
    ensures
        path_steps(map, ns).contains(s) <==> exists|k: int| 0 <= k < ns.len() && #[trigger] steps_via(map, ns[k]).contains(s),
    decreases ns.len(),
{
    if ns.len() > 0 {
        lemma_path_steps(map, ns.drop_last(), s);
        lemma_contains_concat(path_steps(map, ns.drop_last()), steps_via(map, ns.last()), s);
        if path_steps(map, ns).contains(s) {
            if steps_via(map, ns.last()).contains(s) {
                assert(steps_via(map, ns[ns.len() - 1]).contains(s));
            } else {
                let k = choose|k: int| 0 <= k < ns.drop_last().len() && #[trigger] steps_via(map, ns.drop_last()[k]).contains(s);
                assert(ns.drop_last()[k] == ns[k]);
            }
        }
        if exists|k: int| 0 <= k < ns.len() && #[trigger] steps_via(map, ns[k]).contains(s) {
            let k = choose|k: int| 0 <= k < ns.len() && #[trigger] steps_via(map, ns[k]).contains(s);
            if k < ns.len() - 1 {
                assert(ns.drop_last()[k] == ns[k]);
                assert(steps_via(map, ns.drop_last()[k]).contains(s));
            }
        }
    }
}

/// What a neighbor `n` offers.
proof fn lemma_steps_via(map: TileMap, n: Vec3i, s: (Vec3i, u32))
    ensures
        steps_via(map, n).contains(s) <==> if map.spec_get(n).spec_is_empty() {
            has_transition(map.spec_get(below(n))) && s == (below(n), 100u32) && map.spec_get(below(n)).spec_is_walkable()
        } else {
            ||| n.z > 0 && has_transition(map.spec_get(n)) && walkable_among(map, spec_neighbors(map.spec_dimensions(), above(n))).contains(s)
            ||| s == (n, 100u32) && map.spec_get(n).spec_is_walkable()
        },
{
    let t = map.spec_get(n);
    if t.spec_is_empty() {
        if has_transition(map.spec_get(below(n))) && steps_via(map, n).contains(s) {
            assert(walk_cost(map, below(n))[0] == s);
        }
        if has_transition(map.spec_get(below(n))) && s == (below(n), 100u32) && map.spec_get(below(n)).spec_is_walkable() {
            assert(walk_cost(map, below(n))[0] == s);
        }
    } else {
        let up_from = above(n);
        let up = if n.z > 0 && has_transition(t) {
            walkable_among(map, spec_neighbors(map.spec_dimensions(), up_from))
        } else {
            Seq::empty()
        };
        lemma_contains_concat(up, walk_cost(map, n), s);
        if walk_cost(map, n).contains(s) {
            assert(walk_cost(map, n)[0] == s);
        }
        if s == (n, 100u32) && map.spec_get(n).spec_is_walkable() {
            assert(walk_cost(map, n)[0] == s);
        }
    }
}

/// Every step from `c` costs 100, lands on a walkable tile, and comes
/// from a horizontal neighbor `n` of `c`: it is `n` itself; or, where `n`
/// is open air, the tile right below `n` when that one connects levels;
/// or, where `n` is a ramp off the top level, a horizontal neighbor of the
/// tile right above `n`, one level up from `c`.
pub proof fn lemma_steps_come_from_beside(map: TileMap, c: Vec3i, s: (Vec3i, u32))
    requires
        map.wf(),
        in_bounds(map.spec_dimensions(), c),
        path_steps(map, spec_neighbors(map.spec_dimensions(), c)).contains(s),
    ensures
        s.1 == 100,
        map.spec_get(s.0).spec_is_walkable(),
        exists|n: Vec3i| #[trigger] is_beside(c, n) && in_bounds(map.spec_dimensions(), n) && {
            ||| s.0 == n
            ||| map.spec_get(n).spec_is_empty() && s.0 == (Vec3i { x: n.x, y: n.y, z: (n.z + 1) as i32 })
                && has_transition(map.spec_get(s.0))
            ||| !map.spec_get(n).spec_is_empty() && has_transition(map.spec_get(n)) && n.z > 0
                && is_beside(Vec3i { x: n.x, y: n.y, z: (n.z - 1) as i32 }, s.0)
        },
{
    let d = map.spec_dimensions();
    map.lemma_wf_facts();
    let ns = spec_neighbors(d, c);
    lemma_path_steps(map, ns, s);
    let k = choose|k: int| 0 <= k < ns.len() && #[trigger] steps_via(map, ns[k]).contains(s);
    let n = ns[k];
    assert(ns.contains(n));
    lemma_neighbors_beside(d, c);
    lemma_steps_via(map, n, s);
    if !map.spec_get(n).spec_is_empty() && n.z > 0 && has_transition(map.spec_get(n))
        && walkable_among(map, spec_neighbors(d, above(n))).contains(s) {
        lemma_walkable_among(map, spec_neighbors(d, above(n)), s);
        assert(in_bounds(d, above(n)));
        lemma_neighbors_beside(d, above(n));
        assert(spec_neighbors(d, above(n)).contains(s.0));
        assert(is_beside(above(n), s.0));
    }
    assert(is_beside(c, n) && in_bounds(d, n));
}

/// A ramp leads up: for a walker on `c` next to a ramp `n` off the top
/// level, every walkable horizontal neighbor `m` of the tile right above
/// the ramp is a step, at cost 100.
pub proof fn lemma_ramp_leads_up(map: TileMap, c: Vec3i, n: Vec3i, m: Vec3i)
    requires
        map.wf(),
        in_bounds(map.spec_dimensions(), c),
        in_bounds(map.spec_dimensions(), n),
        is_beside(c, n),
        !map.spec_get(n).spec_is_empty(),
        has_transition(map.spec_get(n)),
        n.z > 0,
        in_bounds(map.spec_dimensions(), m),
        is_beside(Vec3i { x: n.x, y: n.y, z: (n.z - 1) as i32 }, m),
        map.spec_get(m).spec_is_walkable(),
    ensures
        path_steps(map, spec_neighbors(map.spec_dimensions(), c)).contains((m, 100u32)),
{
    let d = map.spec_dimensions();
    map.lemma_wf_facts();
    let ns = spec_neighbors(d, c);
    let s = (m, 100u32);
    lemma_neighbors_beside(d, c);
    assert(ns.contains(n));
    let k = choose|k: int| 0 <= k < ns.len() && ns[k] == n;
    assert(in_bounds(d, above(n)));
    lemma_neighbors_beside(d, above(n));
    assert(above(n) == (Vec3i { x: n.x, y: n.y, z: (n.z - 1) as i32 }));
    assert(spec_neighbors(d, above(n)).contains(m));
    lemma_walkable_among(map, spec_neighbors(d, above(n)), s);
    lemma_steps_via(map, n, s);
    assert(steps_via(map, ns[k]).contains(s));
    lemma_path_steps(map, ns, s);
}

} // verus!

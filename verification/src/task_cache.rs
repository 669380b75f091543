//! The cache of the task queues on the map, nearest-first search of task
//! locations, and the choice of the task a pawn takes next.
use vstd::prelude::*;
use crate::components::{Entity, PositionComponent};
use crate::defs::ReactionDefinitionId;
use crate::defs::reaction::Reagent;
use crate::encoders::in_bounds;
use crate::map::{TileMap, spec_neighbors};
use crate::math::Vec3i;
use crate::pathfinding::{neighbors, path_steps, below_in_map};
use crate::small::steps16;
use crate::task::{Task, TaskKind, TaskPrioritiesComponent, priority_order, lemma_priorities_len};
use crate::task_queue::{TaskQueue, TaskHandle, TaskQueueEntry, EntryKey, QueueState, sorted_keys, handle_of, entry_of_item,
    lemma_handle_parts};

verus! {

broadcast use vstd::seq_lib::group_to_multiset_ensures, vstd::multiset::group_multiset_axioms;

/// The squared distance between two points.
pub open spec fn dist2(a: Vec3i, b: Vec3i) -> int {
    (a.x - b.x) * (a.x - b.x) + (a.y - b.y) * (a.y - b.y) + (a.z - b.z) * (a.z - b.z)
}

/// `order` holds the points of `points`, nearest to `from` first.
pub open spec fn is_nearest_order(points: Seq<Vec3i>, from: Vec3i, order: Seq<Vec3i>) -> bool {
    &&& order.to_multiset() == points.to_multiset()
    &&& forall|i: int, j: int| 0 <= i < j < order.len() ==> dist2(#[trigger] order[i], from) <= dist2(#[trigger] order[j], from)
}

/// The squared distance between two points whose squared distance is an `i32`.
fn distance2(a: Vec3i, b: Vec3i) -> (r: i64)
    requires
        dist2(a, b) <= i32::MAX,
    ensures
        r == dist2(a, b),
{
    let dx = a.x as i64 - b.x as i64;
    let dy = a.y as i64 - b.y as i64;
    let dz = a.z as i64 - b.z as i64;
    assert(0 <= dx * dx && 0 <= dy * dy && 0 <= dz * dz) by (nonlinear_arith);
    dx * dx + dy * dy + dz * dz
}

/// The points nearest to `from` first, as a spatial tree's nearest
/// neighbor walk hands them out; points equally near come in no promised
/// order. Squared distances must be `i32`s, which the tree computes in.
pub fn nearest_first(points: &Vec<Vec3i>, from: Vec3i) -> (r: Vec<Vec3i>)
    requires
        forall|i: int| 0 <= i < points.len() ==> dist2(#[trigger] points[i], from) <= i32::MAX,
    ensures
        is_nearest_order(points@, from, r@),
{
    let mut r: Vec<Vec3i> = Vec::new();
    let mut i: usize = 0;
    while i < points.len()
        invariant
            i <= points.len(),
            forall|k: int| 0 <= k < points.len() ==> dist2(#[trigger] points[k], from) <= i32::MAX,
            r@.to_multiset() == points@.subrange(0, i as int).to_multiset(),
            forall|k: int| 0 <= k < r.len() ==> dist2(#[trigger] r@[k], from) <= i32::MAX,
            forall|a: int, b: int| 0 <= a < b < r.len() ==> dist2(#[trigger] r@[a], from) <= dist2(#[trigger] r@[b], from),
        decreases points.len() - i,
    {
        let p = points[i];
        let d = distance2(p, from);
        let mut j: usize = 0;
        while j < r.len() && distance2(r[j], from) <= d
            invariant
                j <= r.len(),
                d == dist2(p, from),
                forall|k: int| 0 <= k < r.len() ==> dist2(#[trigger] r@[k], from) <= i32::MAX,
                forall|k: int| 0 <= k < j ==> dist2(#[trigger] r@[k], from) <= d,
            decreases r.len() - j,
        {
            j = j + 1;
        }
        let ghost before = r@;
        r.insert(j, p);
        proof {
            assert(r@ == before.insert(j as int, p));
            assert(points@.subrange(0, i + 1) =~= points@.subrange(0, i as int).push(p));
            assert forall|a: int, b: int| 0 <= a < b < r.len() implies dist2(#[trigger] r@[a], from) <= dist2(#[trigger] r@[b], from) by {
                if j < before.len() {
                    assert(dist2(before[j as int], from) > d);
                }
                if a < j && b > j {
                    assert(r@[a] == before[a]);
                    assert(r@[b] == before[b - 1]);
                } else if a == j && b > j {
                    assert(r@[b] == before[b - 1]);
                    if b - 1 > j {
                        assert(dist2(before[j as int], from) <= dist2(before[b - 1], from));
                    }
                } else if a > j {
                    assert(r@[a] == before[a - 1]);
                    assert(r@[b] == before[b - 1]);
                } else if b == j {
                    assert(r@[a] == before[a]);
                } else {
                    assert(r@[a] == before[a]);
                    assert(r@[b] == before[b]);
                }
            }
        }
        i = i + 1;
    }
    proof {
        assert(points@.subrange(0, points@.len() as int) == points@);
    }
    r
}

/// The tasks an entity offers.
pub struct HasTasksComponent {
    pub storage: TaskQueue,
}

impl HasTasksComponent {
    /// Whether the entity offers no task.
    pub fn is_empty(&self) -> (r: bool)
        ensures
            r == (self.storage.tasks().len() == 0),
    {
        self.storage.is_empty()
    }

    /// How many tasks the entity offers.
    pub fn len(&self) -> (r: usize)
        ensures
            r == self.storage.tasks().len(),
    {
        self.storage.len()
    }
}

/// The tasks offered at one location: the entity offering them and its queue.
pub struct TaskCacheEntry {
    pub entity: Entity,
    pub queue: TaskQueue,
}

impl Clone for TaskCacheEntry {
    fn clone(&self) -> (r: Self)
        ensures
            r.entity == self.entity,
            r.queue.state() == self.queue.state(),
            self.queue.wf() ==> r.queue.wf(),
    {
        TaskCacheEntry { entity: self.entity, queue: self.queue.clone() }
    }
}

/// Why no task was found: the last reagent missing among the tasks whose
/// reaction could not start; else the first task location without a path;
/// else nothing to find.
#[derive(Debug, Clone, PartialEq)]
pub enum FindBestTaskError {
    MissingReagent(Reagent),
    NoPath(Vec3i),
    Empty,
    Other,
}

/// One try of the search: a task location, the position of its entry in
/// the cache, and the task's entry in its queue.
pub type Attempt = (Vec3i, int, EntryKey);

/// Where the search stands: `Ok` with the tile to go to, the entry and the
/// task's entry once a task is found, else the error so far.
pub type SearchState = Result<(Vec3i, int, EntryKey), FindBestTaskError>;

/// The last position of `loc` in `ks`, if it occurs.
pub open spec fn find_loc(ks: Seq<Vec3i>, loc: Vec3i) -> Option<int>
    decreases ks.len(),
{
    if ks.len() == 0 {
        None
    } else if ks.last() == loc {
        Some(ks.len() - 1)
    } else {
        find_loc(ks.drop_last(), loc)
    }
}

/// A position found by `find_loc` holds the location.
proof fn lemma_find_loc(ks: Seq<Vec3i>, loc: Vec3i)
    ensures
        match find_loc(ks, loc) {
            Some(i) => 0 <= i < ks.len() && ks[i] == loc,
            None => !ks.contains(loc),
        },
    decreases ks.len(),
{
    if ks.len() > 0 {
        lemma_find_loc(ks.drop_last(), loc);
        if ks.last() != loc && ks.contains(loc) {
            let k = choose|k: int| 0 <= k < ks.len() && ks[k] == loc;
            assert(ks.drop_last()[k] == loc);
        }
    }
}

/// What `f` answers for a reaction; `f` answers one thing per reaction.
pub open spec fn initiation<F: Fn(ReactionDefinitionId) -> Result<(), Reagent>>(f: F)
    -> spec_fn(ReactionDefinitionId) -> Result<(), Reagent>
{
    |x: ReactionDefinitionId| choose|r: Result<(), Reagent>| f.ensures((x,), r)
}

/// `f` can be asked about any reaction and gives one answer per reaction.
pub open spec fn answers_by_reaction<F: Fn(ReactionDefinitionId) -> Result<(), Reagent>>(f: F) -> bool {
    &&& forall|x: ReactionDefinitionId| #[trigger] f.requires((x,))
    &&& forall|x: ReactionDefinitionId, a: Result<(), Reagent>, b: Result<(), Reagent>|
        #[trigger] f.ensures((x,), a) && #[trigger] f.ensures((x,), b) ==> a == b
}

/// The cache of the task queues on the map: the locations as the spatial
/// tree holds them, and the entry of each location.
pub struct TaskCache {
    pub tree: Vec<Vec3i>,
    pub tasks: Vec<(Vec3i, TaskCacheEntry)>,
}

impl TaskCache {
    /// The locations that have an entry, in the order of the entries.
    pub open spec fn keys(&self) -> Seq<Vec3i> {
        self.tasks@.map_values(|p: (Vec3i, TaskCacheEntry)| p.0)
    }

    /// The queue of the entry at position `i`.
    pub open spec fn queue_at(&self, i: int) -> TaskQueue {
        self.tasks@[i].1.queue
    }

    /// Every queue is well formed and every location has one entry.
    pub open spec fn wf(&self) -> bool {
        &&& forall|i: int| 0 <= i < self.tasks@.len() ==> (#[trigger] self.tasks@[i]).1.queue.wf()
        &&& forall|i: int, j: int| 0 <= i < j < self.tasks@.len() ==> (#[trigger] self.tasks@[i]).0 != (#[trigger] self.tasks@[j]).0
    }

    /// Every task a queue lists as available is stored in the queue.
    pub open spec fn available_stored(&self) -> bool {
        forall|i: int, k: TaskKind, e: EntryKey|
            0 <= i < self.tasks@.len() && #[trigger] self.queue_at(i).available_set(k).contains(e)
                ==> self.queue_at(i).tasks().contains_key(#[trigger] handle_of(e))
    }

    /// The tries at `loc` for tasks of `kind`: its available tasks of that
    /// kind, in the order of their entries.
    pub open spec fn loc_attempts(&self, loc: Vec3i, kind: TaskKind) -> Seq<Attempt> {
        match find_loc(self.keys(), loc) {
            None => Seq::empty(),
            Some(i) => match self.queue_at(i).available_of(kind) {
                None => Seq::empty(),
                Some(set) => sorted_keys(set).map_values(|e: EntryKey| (loc, i, e)),
            },
        }
    }

    /// The tries for tasks of `kind` at the locations in `order`, in turn.
    pub open spec fn kind_attempts(&self, order: Seq<Vec3i>, kind: TaskKind) -> Seq<Attempt>
        decreases order.len(),
    {
        if order.len() == 0 {
            Seq::empty()
        } else {
            self.kind_attempts(order.drop_last(), kind) + self.loc_attempts(order.last(), kind)
        }
    }

    /// The tries for each kind of `kinds` in turn.
    pub open spec fn all_attempts(&self, order: Seq<Vec3i>, kinds: Seq<TaskKind>) -> Seq<Attempt>
        decreases kinds.len(),
    {
        if kinds.len() == 0 {
            Seq::empty()
        } else {
            self.all_attempts(order, kinds.drop_last()) + self.kind_attempts(order, kinds.last())
        }
    }

    /// The task a try is about.
    pub open spec fn attempt_task(&self, a: Attempt) -> Task {
        self.queue_at(a.1).tasks()[handle_of(a.2)]
    }

    /// One try: once a task is found the search stands; else a task whose
    /// reaction can start is found when its location has a step to take,
    /// the first tile of which the pawn goes to; a location without one
    /// is kept as the error when no error was kept; a reaction that cannot
    /// start keeps its missing reagent, unless one was kept already.
    pub open spec fn search_step(&self, map: TileMap, init: spec_fn(ReactionDefinitionId) -> Result<(), Reagent>,
        st: SearchState, a: Attempt) -> SearchState
    {
        match st {
            Ok(found) => Ok(found),
            Err(err) => match init(self.attempt_task(a).reaction) {
                Ok(_) => {
                    let steps = path_steps(map, spec_neighbors(map.spec_dimensions(), a.0));
                    if steps.len() > 0 {
                        Ok((steps[0].0, a.1, a.2))
                    } else if err is Empty {
                        Err(FindBestTaskError::NoPath(a.0))
                    } else {
                        Err(err)
                    }
                },
                Err(e) => if err is MissingReagent {
                    Err(err)
                } else {
                    Err(FindBestTaskError::MissingReagent(e))
                },
            },
        }
    }

    /// `search_step` as a function of the state and the try.
    pub open spec fn stepper(&self, map: TileMap, init: spec_fn(ReactionDefinitionId) -> Result<(), Reagent>)
        -> spec_fn(SearchState, Attempt) -> SearchState
    {
        |st: SearchState, a: Attempt| self.search_step(map, init, st, a)
    }

    /// Where the search stands after the tries `atts`, starting with nothing found.
    pub open spec fn search(&self, map: TileMap, init: spec_fn(ReactionDefinitionId) -> Result<(), Reagent>,
        atts: Seq<Attempt>) -> SearchState
    {
        atts.fold_left(Err(FindBestTaskError::Empty), self.stepper(map, init))
    }

    /// The tiles the tries are about lie in the map, with the tiles below
    /// their empty neighbors.
    pub open spec fn locations_in(&self, map: TileMap) -> bool {
        forall|i: int| 0 <= i < self.tasks@.len() ==> {
            &&& in_bounds(map.spec_dimensions(), #[trigger] self.tasks@[i].0)
            &&& below_in_map(map, self.tasks@[i].0)
        }
    }
}

/// Once a task is found, further tries leave the search where it stands.
proof fn lemma_found_stays(c: &TaskCache, map: TileMap, init: spec_fn(ReactionDefinitionId) -> Result<(), Reagent>,
    atts: Seq<Attempt>, st: SearchState)
    requires
        st is Ok,
    ensures
        atts.fold_left(st, c.stepper(map, init)) == st,
    decreases atts.len(),
{
    if atts.len() > 0 {
        lemma_found_stays(c, map, init, atts.drop_last(), st);
    }
}

/// Folding over two parts in turn folds over the whole.
proof fn lemma_fold_append(c: &TaskCache, map: TileMap, init: spec_fn(ReactionDefinitionId) -> Result<(), Reagent>,
    a: Seq<Attempt>, b: Seq<Attempt>, st: SearchState)
    ensures
        (a + b).fold_left(st, c.stepper(map, init)) == b.fold_left(a.fold_left(st, c.stepper(map, init)), c.stepper(map, init)),
    decreases b.len(),
{
    if b.len() == 0 {
        assert(a + b =~= a);
    } else {
        lemma_fold_append(c, map, init, a, b.drop_last(), st);
        assert((a + b).drop_last() =~= a + b.drop_last());
        assert((a + b).last() == b.last());
    }
}

/// The view of an entry: its location, entity and what its queue holds.
pub type EntryView = (Vec3i, Entity, QueueState);

/// The entries viewed after putting an entry at `loc`: it replaces the
/// entry at that location, or comes last.
pub open spec fn put_entry(ts: Seq<EntryView>, v: EntryView) -> Seq<EntryView> {
    match find_loc(ts.map_values(|e: EntryView| e.0), v.0) {
        Some(i) => ts.update(i, v),
        None => ts.push(v),
    }
}

/// The tree and the entries made from `items`: the items whose queue has
/// a task, in order, each entry replacing any earlier one at its location.
pub open spec fn cache_from(items: Seq<(Entity, HasTasksComponent, PositionComponent)>) -> (Seq<Vec3i>, Seq<EntryView>)
    decreases items.len(),
{
    if items.len() == 0 {
        (Seq::empty(), Seq::empty())
    } else {
        let (tree, ts) = cache_from(items.drop_last());
        let it = items.last();
        if it.1.storage.tasks().len() == 0 {
            (tree, ts)
        } else {
            (tree.push(it.2.coord), put_entry(ts, (it.2.coord, it.0, it.1.storage.state())))
        }
    }
}

/// The number of tasks in the entries `ts`.
pub open spec fn total_tasks(ts: Seq<(Vec3i, TaskCacheEntry)>) -> int
    decreases ts.len(),
{
    if ts.len() == 0 {
        0
    } else {
        total_tasks(ts.drop_last()) + ts.last().1.queue.tasks().len()
    }
}

impl TaskCache {
    /// The entries, viewed.
    pub open spec fn view_entries(&self) -> Seq<EntryView> {
        self.tasks@.map_values(|p: (Vec3i, TaskCacheEntry)| (p.0, p.1.entity, p.1.queue.state()))
    }

    /// An empty cache.
    pub fn default() -> (r: TaskCache)
        ensures
            r.wf(),
            r.tree@.len() == 0,
            r.tasks@.len() == 0,
    {
        TaskCache { tree: Vec::new(), tasks: Vec::new() }
    }

    /// The position of the entry at `loc`, if there is one.
    pub fn lookup(&self, loc: Vec3i) -> (r: Option<usize>)
        ensures
            match r {
                Some(i) => find_loc(self.keys(), loc) == Some(i as int),
                None => find_loc(self.keys(), loc) is None,
            },
    {
        let mut i = self.tasks.len();
        proof {
            assert(self.keys().subrange(0, i as int) =~= self.keys());
        }
        while i > 0
            invariant
                i <= self.tasks@.len(),
                find_loc(self.keys(), loc) == find_loc(self.keys().subrange(0, i as int), loc),
            decreases i,
        {
            let j = i - 1;
            proof {
                let sub = self.keys().subrange(0, i as int);
                assert(sub.drop_last() =~= self.keys().subrange(0, j as int));
                assert(sub.last() == self.tasks@[j as int].0);
            }
            if self.tasks[j].0 == loc {
                return Some(j);
            }
            i = j;
        }
        None
    }

    /// Rebuilds the cache from the entities offering tasks, each with its
    /// tasks and its location: entities offering none are left out.
    pub fn update(&mut self, items: &Vec<(Entity, HasTasksComponent, PositionComponent)>)
        requires
            forall|k: int| 0 <= k < items.len() ==> (#[trigger] items@[k]).1.storage.wf(),
        ensures
            final(self).wf(),
            (final(self).tree@, final(self).view_entries()) == cache_from(items@),
    {
        self.tasks = Vec::new();
        self.tree = Vec::new();
        let mut k: usize = 0;
        while k < items.len()
            invariant
                k <= items.len(),
                forall|m: int| 0 <= m < items.len() ==> (#[trigger] items@[m]).1.storage.wf(),
                self.wf(),
                (self.tree@, self.view_entries()) == cache_from(items@.subrange(0, k as int)),
            decreases items.len() - k,
        {
            proof {
                assert(items@.subrange(0, k + 1).drop_last() =~= items@.subrange(0, k as int));
                assert(items@.subrange(0, k + 1).last() == items@[k as int]);
            }
            let item = &items[k];
            if !item.1.is_empty() {
                let loc = item.2.coord;
                let entry = TaskCacheEntry { entity: item.0, queue: item.1.storage.clone() };
                let ghost ts = self.view_entries();
                let ghost v: EntryView = (loc, item.0, item.1.storage.state());
                proof {
                    assert(ts.map_values(|e: EntryView| e.0) =~= self.keys());
                }
                match self.lookup(loc) {
                    Some(i) => {
                        proof {
                            lemma_find_loc(self.keys(), loc);
                        }
                        self.tasks.set(i, (loc, entry));
                        proof {
                            assert(self.view_entries() =~= ts.update(i as int, v));
                        }
                    },
                    None => {
                        proof {
                            lemma_find_loc(old(self).keys(), loc);
                        }
                        let ghost before = self.keys();
                        self.tasks.push((loc, entry));
                        proof {
                            lemma_find_loc(before, loc);
                            assert(self.view_entries() =~= ts.push(v));
                            assert forall|a: int, b: int| 0 <= a < b < self.tasks@.len() implies
                                (#[trigger] self.tasks@[a]).0 != (#[trigger] self.tasks@[b]).0 by {
                                if b == self.tasks@.len() - 1 {
                                    assert(before[a] == self.tasks@[a].0);
                                }
                            }
                        }
                    },
                }
                self.tree.push(loc);
            }
            k = k + 1;
        }
        proof {
            assert(items@.subrange(0, items@.len() as int) =~= items@);
        }
    }

    /// The number of tasks in all the entries.
    pub fn len(&self) -> (r: usize)
        requires
            total_tasks(self.tasks@) <= usize::MAX,
        ensures
            r == total_tasks(self.tasks@),
    {
        let mut acc: usize = 0;
        let mut i: usize = 0;
        while i < self.tasks.len()
            invariant
                i <= self.tasks@.len(),
                total_tasks(self.tasks@) <= usize::MAX,
                acc == total_tasks(self.tasks@.subrange(0, i as int)),
            decreases self.tasks@.len() - i,
        {
            proof {
                assert(self.tasks@.subrange(0, i + 1).drop_last() =~= self.tasks@.subrange(0, i as int));
                lemma_total_prefix(self.tasks@, i + 1);
            }
            acc = acc + self.tasks[i].1.queue.len();
            i = i + 1;
        }
        proof {
            assert(self.tasks@.subrange(0, i as int) =~= self.tasks@);
        }
        acc
    }

    /// Whether no entry holds a task.
    pub fn is_empty(&self) -> (r: bool)
        ensures
            r == forall|i: int| 0 <= i < self.tasks@.len() ==> (#[trigger] self.queue_at(i)).tasks().len() == 0,
    {
        let mut i: usize = 0;
        while i < self.tasks.len()
            invariant
                i <= self.tasks@.len(),
                forall|j: int| 0 <= j < i ==> (#[trigger] self.queue_at(j)).tasks().len() == 0,
            decreases self.tasks@.len() - i,
        {
            if !self.tasks[i].1.queue.is_empty() {
                proof {
                    assert(self.queue_at(i as int).tasks().len() != 0);
                }
                return false;
            }
            i = i + 1;
        }
        true
    }
}

/// The tasks of a prefix are no more than those of the whole.
proof fn lemma_total_prefix(ts: Seq<(Vec3i, TaskCacheEntry)>, n: int)
    requires
        0 <= n <= ts.len(),
    ensures
        total_tasks(ts.subrange(0, n)) <= total_tasks(ts),
    decreases ts.len() - n,
{
    if n < ts.len() {
        lemma_total_prefix(ts, n + 1);
        assert(ts.subrange(0, n + 1).drop_last() =~= ts.subrange(0, n));
    } else {
        assert(ts.subrange(0, n) =~= ts);
    }
}

/// The kinds of `p`, in priority order.
pub open spec fn kinds_in_order(p: TaskPrioritiesComponent) -> Seq<TaskKind> {
    Seq::new(3, |i: int| priority_order(p)[i].0)
}

/// `p` is the beginning of `s`.
pub open spec fn begins(s: Seq<Attempt>, p: Seq<Attempt>) -> bool {
    p.len() <= s.len() && s.subrange(0, p.len() as int) == p
}

/// The tries at the first locations of an order begin the tries at all of them.
proof fn lemma_kind_prefix(c: &TaskCache, order: Seq<Vec3i>, kind: TaskKind, m: int)
    requires
        0 <= m <= order.len(),
    ensures
        begins(c.kind_attempts(order, kind), c.kind_attempts(order.take(m), kind)),
    decreases order.len() - m,
{
    if m < order.len() {
        lemma_kind_prefix(c, order, kind, m + 1);
        assert(order.take(m + 1).drop_last() =~= order.take(m));
        assert(order.take(m + 1).last() == order[m]);
        let a = c.kind_attempts(order.take(m), kind);
        let b = c.kind_attempts(order.take(m + 1), kind);
        assert(b == a + c.loc_attempts(order[m], kind));
        assert(b.subrange(0, a.len() as int) =~= a);
        let s = c.kind_attempts(order, kind);
        assert(s.subrange(0, a.len() as int) =~= s.subrange(0, b.len() as int).subrange(0, a.len() as int));
    } else {
        assert(order.take(m) =~= order);
        let s = c.kind_attempts(order, kind);
        assert(s.subrange(0, s.len() as int) =~= s);
    }
}

/// The tries for the first kinds begin the tries for all of them.
proof fn lemma_all_prefix(c: &TaskCache, order: Seq<Vec3i>, kinds: Seq<TaskKind>, m: int)
    requires
        0 <= m <= kinds.len(),
    ensures
        begins(c.all_attempts(order, kinds), c.all_attempts(order, kinds.take(m))),
    decreases kinds.len() - m,
{
    if m < kinds.len() {
        lemma_all_prefix(c, order, kinds, m + 1);
        assert(kinds.take(m + 1).drop_last() =~= kinds.take(m));
        assert(kinds.take(m + 1).last() == kinds[m]);
        let a = c.all_attempts(order, kinds.take(m));
        let b = c.all_attempts(order, kinds.take(m + 1));
        assert(b == a + c.kind_attempts(order, kinds[m]));
        assert(b.subrange(0, a.len() as int) =~= a);
        let s = c.all_attempts(order, kinds);
        assert(s.subrange(0, a.len() as int) =~= s.subrange(0, b.len() as int).subrange(0, a.len() as int));
    } else {
        assert(kinds.take(m) =~= kinds);
        let s = c.all_attempts(order, kinds);
        assert(s.subrange(0, s.len() as int) =~= s);
    }
}

/// A task found after some of the tries is what the whole search finds.
proof fn lemma_early_found(c: &TaskCache, map: TileMap, init: spec_fn(ReactionDefinitionId) -> Result<(), Reagent>,
    order: Seq<Vec3i>, kinds: Seq<TaskKind>, ki: int, oi: int, vi: int, found: (Vec3i, int, EntryKey))
    requires
        0 <= ki < kinds.len(),
        0 <= oi < order.len(),
        0 <= vi < c.loc_attempts(order[oi], kinds[ki]).len(),
        (c.all_attempts(order, kinds.take(ki)) + c.kind_attempts(order.take(oi), kinds[ki])
            + c.loc_attempts(order[oi], kinds[ki]).take(vi + 1)).fold_left(
            Err(FindBestTaskError::Empty), c.stepper(map, init)) == Ok::<(Vec3i, int, EntryKey), FindBestTaskError>(found),
    ensures
        c.search(map, init, c.all_attempts(order, kinds)) == Ok::<(Vec3i, int, EntryKey), FindBestTaskError>(found),
{
    let kind = kinds[ki];
    let la = c.loc_attempts(order[oi], kind);
    let pre = c.all_attempts(order, kinds.take(ki));
    let now = pre + c.kind_attempts(order.take(oi), kind) + la.take(vi + 1);
    let full = c.all_attempts(order, kinds);
    lemma_kind_prefix(c, order, kind, oi + 1);
    lemma_all_prefix(c, order, kinds, ki + 1);
    assert(kinds.take(ki + 1).drop_last() =~= kinds.take(ki));
    assert(kinds.take(ki + 1).last() == kind);
    assert(order.take(oi + 1).drop_last() =~= order.take(oi));
    assert(order.take(oi + 1).last() == order[oi]);
    let k_all = c.kind_attempts(order, kind);
    let k_pre = c.kind_attempts(order.take(oi + 1), kind);
    assert(k_pre == c.kind_attempts(order.take(oi), kind) + la);
    let big = c.all_attempts(order, kinds.take(ki + 1));
    assert(big == pre + k_all);
    assert(begins(full, now)) by {
        assert(full.subrange(0, big.len() as int) == big);
        assert(k_all.subrange(0, k_pre.len() as int) == k_pre);
        assert forall|x: int| 0 <= x < now.len() implies #[trigger] full[x] == now[x] by {
            assert(full[x] == big[x]);
            if x >= pre.len() {
                assert(big[x] == k_all[x - pre.len()]);
                assert(k_all[x - pre.len()] == k_pre[x - pre.len()]);
            }
        }
        assert(full.subrange(0, now.len() as int) =~= now);
    }
    let rest = full.subrange(now.len() as int, full.len() as int);
    assert(full =~= now + rest);
    lemma_fold_append(c, map, init, now, rest, Err(FindBestTaskError::Empty));
    lemma_found_stays(c, map, init, rest, Ok(found));
}

impl TaskCache {
    /// The task a pawn at `source_location` takes next, with the tile to go
    /// to and the entry offering it. Kinds are tried in the pawn's priority
    /// order; for each, the locations nearest first; at each, the available
    /// tasks of the kind in their queue's order (lowest priority first). A
    /// task is taken when `can_initiate` lets its reaction start and its
    /// location has a step to take; the pawn goes to the first tile of
    /// that step. Otherwise the error tells why, see `search_step`.
    pub fn find_best<F: Fn(ReactionDefinitionId) -> Result<(), Reagent>>(
        &self,
        source_location: Vec3i,
        source_priorities: &TaskPrioritiesComponent,
        map: &TileMap,
        can_initiate: &F,
    ) -> (r: Result<(Vec3i, &TaskCacheEntry, TaskHandle), FindBestTaskError>)
        requires
            self.wf(),
            self.available_stored(),
            map.wf(),
            self.locations_in(*map),
            forall|i: int| 0 <= i < self.tree@.len() ==> dist2(#[trigger] self.tree@[i], source_location) <= i32::MAX,
            answers_by_reaction(*can_initiate),
        ensures
            exists|order: Seq<Vec3i>| {
                &&& is_nearest_order(self.tree@, source_location, order)
                &&& match self.search(*map, initiation(*can_initiate), self.all_attempts(order, kinds_in_order(*source_priorities))) {
                    Ok(found) => r matches Ok((d, entry, h)) && d == found.0 && *entry == self.tasks@[found.1].1
                        && h == handle_of(found.2),
                    Err(e) => r matches Err(x) && x == e,
                }
            },
    {
        let priorities = source_priorities.sorted();
        let order = nearest_first(&self.tree, source_location);
        let ghost kinds = kinds_in_order(*source_priorities);
        let ghost init = initiation(*can_initiate);
        let ghost stp = self.stepper(*map, init);
        let ghost full = self.all_attempts(order@, kinds);
        let ghost start: SearchState = Err(FindBestTaskError::Empty);
        proof {
            assert(kinds.take(0) =~= Seq::<TaskKind>::empty());
        }
        let mut err = FindBestTaskError::Empty;
        let mut ki: usize = 0;
        while ki < 3
            invariant
                ki <= 3,
                priorities@ == priority_order(*source_priorities),
                priorities@.len() == 3,
                kinds == kinds_in_order(*source_priorities),
                is_nearest_order(self.tree@, source_location, order@),
                self.wf(),
                self.available_stored(),
                map.wf(),
                self.locations_in(*map),
                answers_by_reaction(*can_initiate),
                init == initiation(*can_initiate),
                stp == self.stepper(*map, init),
                full == self.all_attempts(order@, kinds),
                start == Err::<(Vec3i, int, EntryKey), FindBestTaskError>(FindBestTaskError::Empty),
                self.all_attempts(order@, kinds.take(ki as int)).fold_left(start, stp) == Err::<(Vec3i, int, EntryKey), FindBestTaskError>(err),
            decreases 3 - ki,
        {
            let kind = priorities[ki].0;
            let ghost pre = self.all_attempts(order@, kinds.take(ki as int));
            proof {
                assert(kind == kinds[ki as int]);
                assert(order@.take(0) =~= Seq::<Vec3i>::empty());
                assert(pre + self.kind_attempts(order@.take(0), kind) =~= pre);
            }
            let mut oi: usize = 0;
            while oi < order.len()
                invariant
                    oi <= order@.len(),
                    ki < 3,
                    kind == kinds[ki as int],
                    kinds == kinds_in_order(*source_priorities),
                    self.wf(),
                    self.available_stored(),
                    map.wf(),
                    self.locations_in(*map),
                    answers_by_reaction(*can_initiate),
                    init == initiation(*can_initiate),
                    stp == self.stepper(*map, init),
                    full == self.all_attempts(order@, kinds),
                    start == Err::<(Vec3i, int, EntryKey), FindBestTaskError>(FindBestTaskError::Empty),
                    pre == self.all_attempts(order@, kinds.take(ki as int)),
                    is_nearest_order(self.tree@, source_location, order@),
                    (pre + self.kind_attempts(order@.take(oi as int), kind)).fold_left(start, stp)
                        == Err::<(Vec3i, int, EntryKey), FindBestTaskError>(err),
                decreases order@.len() - oi,
            {
                let loc = order[oi];
                let ghost mid = pre + self.kind_attempts(order@.take(oi as int), kind);
                let ghost la = self.loc_attempts(loc, kind);
                proof {
                    assert(order@.take(oi + 1).drop_last() =~= order@.take(oi as int));
                    assert(order@.take(oi + 1).last() == loc);
                    assert(pre + self.kind_attempts(order@.take(oi + 1), kind) =~= mid + la);
                }
                match self.lookup(loc) {
                    Some(i) => {
                        proof {
                            lemma_find_loc(self.keys(), loc);
                        }
                        let entry = &self.tasks[i].1;
                        match entry.queue.iter_available(kind) {
                            Some(v) => {
                                let ghost set = self.queue_at(i as int).available_set(kind);
                                proof {
                                    assert(la == sorted_keys(set).map_values(|e: EntryKey| (loc, i as int, e)));
                                    assert(la.take(0) =~= Seq::<Attempt>::empty());
                                    assert(mid + la.take(0) =~= mid);
                                }
                                let mut vi: usize = 0;
                                while vi < v.len()
                                    invariant
                                        vi <= v@.len(),
                                        i < self.tasks@.len(),
                                        *entry == self.tasks@[i as int].1,
                                        self.tasks@[i as int].0 == loc,
                                        v@.map_values(|x: TaskQueueEntry| entry_of_item(x)) == sorted_keys(set),
                                        v@.len() == set.len(),
                                        set == self.queue_at(i as int).available_set(kind),
                                        la == sorted_keys(set).map_values(|e: EntryKey| (loc, i as int, e)),
                                        la == self.loc_attempts(loc, kind),
                                        sorted_keys(set).to_set() == set,
                                        self.wf(),
                                        self.available_stored(),
                                        map.wf(),
                                        self.locations_in(*map),
                                        answers_by_reaction(*can_initiate),
                                        init == initiation(*can_initiate),
                                        stp == self.stepper(*map, init),
                                        full == self.all_attempts(order@, kinds),
                                        start == Err::<(Vec3i, int, EntryKey), FindBestTaskError>(FindBestTaskError::Empty),
                                        pre == self.all_attempts(order@, kinds.take(ki as int)),
                                        mid == pre + self.kind_attempts(order@.take(oi as int), kind),
                                        ki < 3,
                                        oi < order@.len(),
                                        loc == order@[oi as int],
                                        is_nearest_order(self.tree@, source_location, order@),
                                        kind == kinds[ki as int],
                                        kinds == kinds_in_order(*source_priorities),
                                        (mid + la.take(vi as int)).fold_left(start, stp) == Err::<(Vec3i, int, EntryKey), FindBestTaskError>(err),
                                    decreases v@.len() - vi,
                                {
                                    let item = v[vi];
                                    let ghost key = entry_of_item(item);
                                    proof {
                                        assert(v@.map_values(|x: TaskQueueEntry| entry_of_item(x))[vi as int] == key);
                                        assert(sorted_keys(set)[vi as int] == key);
                                        assert(set.contains(key));
                                        lemma_handle_parts(item.handle, handle_of(key));
                                        assert(item.handle == handle_of(key));
                                        assert(self.queue_at(i as int).tasks().contains_key(handle_of(key)));
                                        assert(la[vi as int] == (loc, i as int, key));
                                    }
                                    let ghost att: Attempt = (loc, i as int, key);
                                    let ghost done = mid + la.take(vi as int);
                                    proof {
                                        assert(mid + la.take(vi + 1) =~= done.push(att));
                                        assert(done.push(att).drop_last() =~= done);
                                    }
                                    let task = match entry.queue.get(item.handle) {
                                        Some(t) => *t,
                                        None => {
                                            proof {
                                                assert(false);
                                            }
                                            return Err(FindBestTaskError::Other);
                                        },
                                    };
                                    let answer = can_initiate(task.reaction);
                                    proof {
                                        assert(task == self.attempt_task(att));
                                        assert(init(task.reaction) == answer);
                                    }
                                    match answer {
                                        Ok(_) => {
                                            let steps = neighbors(map, &loc);
                                            if steps.len() > 0 {
                                                let dst = steps.get(0).0;
                                                proof {
                                                    let found: (Vec3i, int, EntryKey) = (dst, i as int, key);
                                                    let now = done.push(att);
                                                    assert(now.fold_left(start, stp) == stp(done.fold_left(start, stp), att));
                                                    assert(now.fold_left(start, stp) == Ok::<(Vec3i, int, EntryKey), FindBestTaskError>(found));
                                                    assert(now == pre + self.kind_attempts(order@.take(oi as int), kind) + la.take(vi + 1));
                                                    lemma_early_found(self, *map, init, order@, kinds, ki as int, oi as int, vi as int, found);
                                                    assert(self.search(*map, init, full) == Ok::<(Vec3i, int, EntryKey), FindBestTaskError>(found));
                                                    assert(is_nearest_order(self.tree@, source_location, order@));
                                                }
                                                return Ok((dst, entry, item.handle));
                                            } else if matches!(err, FindBestTaskError::Empty) {
                                                err = FindBestTaskError::NoPath(loc);
                                            }
                                        },
                                        Err(reagent) => {
                                            if !matches!(err, FindBestTaskError::MissingReagent(_)) {
                                                err = FindBestTaskError::MissingReagent(reagent);
                                            }
                                        },
                                    }
                                    proof {
                                        let now = done.push(att);
                                        assert(now.fold_left(start, stp) == stp(done.fold_left(start, stp), att));
                                    }
                                    vi = vi + 1;
                                }
                                proof {
                                    assert(la.take(vi as int) =~= la);
                                }
                            },
                            None => {
                                proof {
                                    assert(la =~= Seq::<Attempt>::empty());
                                    assert(mid + la =~= mid);
                                }
                            },
                        }
                    },
                    None => {
                        proof {
                            assert(la =~= Seq::<Attempt>::empty());
                            assert(mid + la =~= mid);
                        }
                    },
                }
                oi = oi + 1;
            }
            proof {
                assert(order@.take(oi as int) =~= order@);
                assert(kinds.take(ki + 1).drop_last() =~= kinds.take(ki as int));
                assert(kinds.take(ki + 1).last() == kind);
            }
            ki = ki + 1;
        }
        proof {
            assert(kinds.take(3) =~= kinds);
        }
        Err(err)
    }
}

} // verus!

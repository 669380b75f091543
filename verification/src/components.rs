//! Components attached to entities: tags, sizes, positions, containers,
//! movement requests and needs.
use vstd::prelude::*;
use crate::data::{CollisionKind, DimensionsVec, spec_into_tiles, tiles_fit, spec_from_tiles};
use crate::defs::foliage::FoliageKind;
use crate::defs::needs::NeedKind;
use crate::math::{Aabbi, Vec3i, Vec3u, fits_i32};
use crate::small::{Entities32, Entities3, Limbs2, entities32, entities3, limbs2};

verus! {

/// Identifies an entity of the world.
#[derive(Debug, Clone, Copy, PartialEq, Eq, Hash, Structural)]
pub struct Entity(pub u64);

/// Identifies a body part in the body graph of a creature.
#[derive(Debug, Clone, Copy, PartialEq, Eq, Hash, Structural)]
pub struct PartGraphId(pub u32);

/// A moment of the simulation clock, counted in frames.
#[derive(Debug, Clone, Copy, PartialEq, Eq, Hash, Structural)]
pub struct TimeStamp(pub u64);

/// Marks an entity that never moves.
#[derive(Debug, Clone, Copy, PartialEq, Eq, Structural)]
pub struct StaticTag;

/// Marks a building.
#[derive(Debug, Clone, Copy, PartialEq, Eq, Structural)]
pub struct BuildingTag;

/// Marks a workshop.
#[derive(Debug, Clone, Copy, PartialEq, Eq, Structural)]
pub struct WorkshopTag;

/// Marks an item.
#[derive(Debug, Clone, Copy, PartialEq, Eq, Structural)]
pub struct ItemTag;

/// Marks a plant, with its kind.
#[derive(Debug, Clone, Copy, PartialEq, Eq, Hash, Structural)]
pub struct FoliageTag(pub FoliageKind);

/// Marks a pawn of the colony.
#[derive(Debug, Clone, Copy, PartialEq, Eq, Hash, Structural)]
pub struct PawnTag;

/// Marks a creature.
#[derive(Debug, Clone, Copy, PartialEq, Eq, Hash, Structural)]
pub struct CreatureTag;

/// Marks a dead creature.
#[derive(Debug, Clone, Copy, PartialEq, Eq, Hash, Structural)]
pub struct DeadTag;

/// Marks an entity that only exists to carry a task.
#[derive(Debug, Clone, Copy, PartialEq, Eq, Hash, Structural)]
pub struct VirtualTaskTag;

/// Marks a selected entity.
#[derive(Debug, Clone, Copy, PartialEq, Eq, Structural)]
pub struct SelectedComponent;

/// Asks for an entity to be removed after `delay` frames.
#[derive(Debug, Clone, Copy, PartialEq, Eq, Hash, Structural)]
pub struct Destroy {
    pub delay: u64,
}

impl Destroy {
    /// Removal on the next frame.
    pub fn default() -> (r: Destroy)
        ensures
            r.delay == 1,
    {
        Destroy { delay: 1 }
    }
}

/// When an entity was created.
#[derive(Debug, Clone, Copy)]
pub struct EntityMeta {
    created: TimeStamp,
}

impl EntityMeta {
    pub closed spec fn spec_created(&self) -> TimeStamp {
        self.created
    }

    pub fn created(&self) -> (r: &TimeStamp)
        ensures
            *r == self.spec_created(),
    {
        &self.created
    }

    pub fn new(created: TimeStamp) -> (r: EntityMeta)
        ensures
            r.spec_created() == created,
    {
        EntityMeta { created }
    }
}

/// Why a movement failed.
#[derive(Debug, Clone, Copy, PartialEq, Eq, Hash, Structural)]
pub enum MovementError {
    NoPath,
}

impl MovementError {
    /// The message shown for the error.
    pub fn message(&self) -> (r: &'static str)
        ensures
            r@ == "No path to target"@,
    {
        "No path to target"
    }
}

/// A request to walk from `started_at` to `destination`, stopping
/// `distance` tiles short when given. Two requests are equal when they go
/// to the same destination.
#[derive(Debug, Clone, Copy)]
pub struct MovementRequest {
    pub destination: Vec3i,
    pub started_at: Vec3i,
    pub distance: Option<u32>,
}

impl PartialEq for MovementRequest {
    fn eq(&self, rhv: &Self) -> (r: bool) {
        self.destination == rhv.destination
    }
}

impl vstd::std_specs::cmp::PartialEqSpecImpl for MovementRequest {
    open spec fn obeys_eq_spec() -> bool {
        true
    }

    open spec fn eq_spec(&self, rhv: &Self) -> bool {
        self.destination == rhv.destination
    }
}

impl MovementRequest {
    pub fn new(started_at: Vec3i, destination: Vec3i) -> (r: MovementRequest)
        ensures
            r.destination == destination,
            r.started_at == started_at,
            r.distance == None::<u32>,
    {
        MovementRequest { destination, started_at, distance: None }
    }

    pub fn with_distance(started_at: Vec3i, destination: Vec3i, distance: u32) -> (r:
        MovementRequest)
        ensures
            r.destination == destination,
            r.started_at == started_at,
            r.distance == Some(distance),
    {
        MovementRequest { destination, started_at, distance: Some(distance) }
    }
}

/// How a movement request ended.
#[derive(Debug, Clone, Copy)]
pub struct MovementResult {
    pub request: MovementRequest,
    pub result: Result<(), MovementError>,
}

/// The display name of an entity.
#[derive(Debug, Clone)]
pub struct NameComponent {
    pub name: String,
}

impl NameComponent {
    pub fn new(name: &str) -> (r: NameComponent)
        ensures
            r.name@ == name@,
    {
        NameComponent { name: name.to_owned() }
    }
}

/// An item container: its capacity, the volume its contents take up, the
/// entities inside and those queued to enter.
pub struct ItemContainerComponent {
    pub capacity: DimensionsVec,
    pub consumed: DimensionsVec,
    pub inside: Entities32,
    pub queued_inside: Entities3,
}

impl ItemContainerComponent {
    /// An empty container of unbounded capacity.
    pub fn default() -> (r: ItemContainerComponent)
        ensures
            r.capacity == DimensionsVec(Vec3u { x: u32::MAX, y: u32::MAX, z: u32::MAX }),
            r.consumed == DimensionsVec(Vec3u { x: 0, y: 0, z: 0 }),
            entities32(r.inside) == Seq::<Entity>::empty(),
            entities3(r.queued_inside) == Seq::<Entity>::empty(),
    {
        ItemContainerComponent {
            capacity: DimensionsVec::new(u32::MAX, u32::MAX, u32::MAX),
            consumed: DimensionsVec::new(0, 0, 0),
            inside: Entities32::new(),
            queued_inside: Entities3::new(),
        }
    }

    /// The entities inside, in order.
    pub fn inside_items(&self) -> (r: Vec<Entity>)
        ensures
            r@ == entities32(self.inside),
    {
        let n = self.inside.len();
        let mut r: Vec<Entity> = Vec::new();
        let mut i: usize = 0;
        while i < n
            invariant
                n == entities32(self.inside).len(),
                i <= n,
                r@ == entities32(self.inside).subrange(0, i as int),
            decreases n - i,
        {
            r.push(self.inside.get(i));
            i = i + 1;
        }
        proof {
            assert(entities32(self.inside).subrange(0, n as int) == entities32(self.inside));
        }
        r
    }

    /// Queues `entity` to enter the container.
    pub fn push(&mut self, entity: Entity)
        ensures
            entities3(final(self).queued_inside) == entities3(old(self).queued_inside).push(entity),
            entities32(final(self).inside) == entities32(old(self).inside),
            final(self).capacity == old(self).capacity,
            final(self).consumed == old(self).consumed,
    {
        self.queued_inside.push(entity);
    }

    /// Takes every occurrence of `entity` out of the container; tells
    /// whether there was one.
    pub fn remove(&mut self, entity: Entity) -> (removed: bool)
        ensures
            removed == entities32(old(self).inside).contains(entity),
            entities32(final(self).inside) == without(entities32(old(self).inside), entity),
            entities3(final(self).queued_inside) == entities3(old(self).queued_inside),
            final(self).capacity == old(self).capacity,
            final(self).consumed == old(self).consumed,
    {
        let before = self.inside.len();
        self.inside.retain_other(entity);
        let after = self.inside.len();
        proof {
            lemma_filter_other_len(entities32(old(self).inside), entity);
        }
        before != after
    }
}

/// `s` without any occurrence of `x`, in order.
pub open spec fn without(s: Seq<Entity>, x: Entity) -> Seq<Entity> {
    s.filter(other_than(x))
}

/// Whether an entity is not `x`.
pub open spec fn other_than(x: Entity) -> spec_fn(Entity) -> bool {
    |e: Entity| e != x
}

/// After an entity is taken out of a container, the container no longer
/// holds it and still holds every other entity it held.
pub proof fn lemma_removed_not_inside(s: Seq<Entity>, x: Entity, y: Entity)
    ensures
        !without(s, x).contains(x),
        y != x ==> (without(s, x).contains(y) <==> s.contains(y)),
{
    let pred = other_than(x);
    s.filter_lemma(pred);
    if without(s, x).contains(x) {
        let i = choose|i: int| 0 <= i < without(s, x).len() && without(s, x)[i] == x;
        assert(pred(s.filter(pred)[i]));
    }
    if y != x && s.contains(y) {
        let i = choose|i: int| 0 <= i < s.len() && s[i] == y;
        s.lemma_filter_contains(pred, i);
    }
    if without(s, x).contains(y) {
        s.lemma_filter_contains_rev(pred, y);
    }
}

/// Filtering out `x` shortens a sequence exactly when `x` occurs in it.
pub proof fn lemma_filter_other_len(s: Seq<Entity>, x: Entity)
    ensures
        without(s, x).len() < s.len() <==> s.contains(x),
        without(s, x).len() <= s.len(),
    decreases s.len(),
{
    reveal(Seq::filter);
    if s.len() > 0 {
        let t = s.drop_last();
        lemma_filter_other_len(t, x);
        assert(without(s, x) == if s.last() != x {
            without(t, x).push(s.last())
        } else {
            without(t, x)
        });
        assert(s == t.push(s.last()));
        if s.contains(x) {
            let i = choose|i: int| 0 <= i < s.len() && s[i] == x;
            if i < t.len() {
                assert(t[i] == x);
            }
        }
        if t.contains(x) {
            let i = choose|i: int| 0 <= i < t.len() && t[i] == x;
            assert(s[i] == x);
        }
    }
}

/// Points an item at the container holding it.
#[derive(Debug, Clone, Copy, PartialEq, Eq, Hash, Structural)]
pub struct ItemContainerChildComponent {
    pub parent: Entity,
}

/// The limbs of a creature that can carry, with what each holds.
pub struct CarryComponent {
    pub limbs: Limbs2,
}

/// The items held in `limbs`, in limb order.
pub open spec fn carried(limbs: Seq<(PartGraphId, Option<Entity>)>) -> Seq<Entity>
    decreases limbs.len(),
{
    if limbs.len() == 0 {
        Seq::empty()
    } else {
        let rest = carried(limbs.drop_last());
        match limbs.last().1 {
            Some(e) => rest.push(e),
            None => rest,
        }
    }
}

/// The first limb that holds `item`, if any.
pub open spec fn first_holding(limbs: Seq<(PartGraphId, Option<Entity>)>, item: Entity, i: int) -> bool {
    &&& 0 <= i < limbs.len()
    &&& limbs[i].1 == Some(item)
    &&& forall|j: int| 0 <= j < i ==> limbs[j].1 != Some(item)
}

/// `i` is the first limb that holds nothing.
pub open spec fn first_empty(limbs: Seq<(PartGraphId, Option<Entity>)>, i: int) -> bool {
    &&& 0 <= i < limbs.len()
    &&& limbs[i].1 is None
    &&& forall|j: int| 0 <= j < i ==> limbs[j].1 is Some
}

/// `i` is the first limb that is the body part `part`.
pub open spec fn first_part(limbs: Seq<(PartGraphId, Option<Entity>)>, part: PartGraphId, i: int) -> bool {
    &&& 0 <= i < limbs.len()
    &&& limbs[i].0 == part
    &&& forall|j: int| 0 <= j < i ==> limbs[j].0 != part
}

impl CarryComponent {
    /// The body part of the first limb that holds nothing, if any.
    pub fn first_free(&self) -> (r: Option<PartGraphId>)
        ensures
            match r {
                Some(p) => exists|i: int| first_empty(limbs2(self.limbs), i) && limbs2(self.limbs)[i].0 == p,
                None => forall|i: int| 0 <= i < limbs2(self.limbs).len() ==> (#[trigger] limbs2(self.limbs)[i]).1 is Some,
            },
    {
        let n = self.limbs.len();
        let mut i: usize = 0;
        while i < n
            invariant
                n == limbs2(self.limbs).len(),
                i <= n,
                forall|j: int| 0 <= j < i ==> (#[trigger] limbs2(self.limbs)[j]).1 is Some,
            decreases n - i,
        {
            let limb = self.limbs.get(i);
            if limb.1.is_none() {
                proof {
                    assert(first_empty(limbs2(self.limbs), i as int));
                }
                return Some(limb.0);
            }
            i = i + 1;
        }
        None
    }

    /// Puts `item` in the first limb that is the body part `part`.
    pub fn hold(&mut self, part: PartGraphId, item: Entity)
        requires
            exists|i: int| 0 <= i < limbs2(old(self).limbs).len() && limbs2(old(self).limbs)[i].0 == part,
        ensures
            exists|i: int| first_part(limbs2(old(self).limbs), part, i)
                && limbs2(final(self).limbs) == limbs2(old(self).limbs).update(i, (part, Some(item))),
    {
        let n = self.limbs.len();
        let mut i: usize = 0;
        while i < n
            invariant
                n == limbs2(self.limbs).len(),
                i <= n,
                self.limbs == old(self).limbs,
                exists|k: int| 0 <= k < n && limbs2(self.limbs)[k].0 == part,
                forall|j: int| 0 <= j < i ==> (#[trigger] limbs2(self.limbs)[j]).0 != part,
            decreases n - i,
        {
            let limb = self.limbs.get(i);
            if limb.0 == part {
                proof {
                    assert(first_part(limbs2(old(self).limbs), part, i as int));
                }
                self.limbs.set(i, (part, Some(item)));
                return;
            }
            i = i + 1;
        }
        proof {
            let k = choose|k: int| 0 <= k < n && limbs2(self.limbs)[k].0 == part;
            assert(limbs2(self.limbs)[k].0 != part);
        }
    }

    /// The items held, in limb order.
    pub fn iter(&self) -> (r: Vec<Entity>)
        ensures
            r@ == carried(limbs2(self.limbs)),
    {
        let n = self.limbs.len();
        let mut r: Vec<Entity> = Vec::new();
        let mut i: usize = 0;
        while i < n
            invariant
                n == limbs2(self.limbs).len(),
                i <= n,
                r@ == carried(limbs2(self.limbs).subrange(0, i as int)),
            decreases n - i,
        {
            let limb = self.limbs.get(i);
            proof {
                let s = limbs2(self.limbs);
                assert(s.subrange(0, (i + 1) as int).drop_last() == s.subrange(0, i as int));
            }
            if let Some(item) = limb.1 {
                r.push(item);
            }
            i = i + 1;
        }
        proof {
            assert(limbs2(self.limbs).subrange(0, n as int) == limbs2(self.limbs));
        }
        r
    }

    /// Empties the first limb holding `item`; tells whether one did.
    pub fn remove(&mut self, item: Entity) -> (r: bool)
        ensures
            r == exists|i: int| first_holding(limbs2(old(self).limbs), item, i),
            r ==> exists|i: int|
                first_holding(limbs2(old(self).limbs), item, i) && limbs2(final(self).limbs)
                    == limbs2(old(self).limbs).update(i, (limbs2(old(self).limbs)[i].0, None)),
            !r ==> limbs2(final(self).limbs) == limbs2(old(self).limbs),
    {
        let n = self.limbs.len();
        let mut i: usize = 0;
        while i < n
            invariant
                n == limbs2(self.limbs).len(),
                i <= n,
                self.limbs == old(self).limbs,
                forall|j: int| 0 <= j < i ==> limbs2(self.limbs)[j].1 != Some(item),
            decreases n - i,
        {
            let limb = self.limbs.get(i);
            if let Some(limb_item) = limb.1 {
                if item == limb_item {
                    self.limbs.set(i, (limb.0, None));
                    proof {
                        assert(first_holding(limbs2(old(self).limbs), item, i as int));
                    }
                    return true;
                }
            }
            i = i + 1;
        }
        proof {
            assert forall|k: int| !first_holding(limbs2(old(self).limbs), item, k) by {
                if 0 <= k < n {
                    assert(limbs2(self.limbs)[k].1 != Some(item));
                }
            }
        }
        false
    }
}

/// The size of an entity: its least, usual, greatest and current size,
/// and whether it blocks movement.
#[derive(Debug, Clone, Copy, PartialEq, Eq, Hash, Structural)]
pub struct DimensionsComponent {
    pub min: DimensionsVec,
    pub norm: DimensionsVec,
    pub max: DimensionsVec,
    pub current: DimensionsVec,
    pub collision: CollisionKind,
}

/// The box `coord + offset`, taken corner by corner, fits `i32`.
pub open spec fn shift_fits(coord: Vec3i, offset: Vec3i) -> bool {
    &&& fits_i32(coord.x + offset.x)
    &&& fits_i32(coord.y + offset.y)
    &&& fits_i32(coord.z + offset.z)
}

impl DimensionsComponent {
    /// A size of one tile along each axis that does not block.
    pub fn default() -> (r: DimensionsComponent)
        ensures
            r.min == DimensionsVec(Vec3u { x: 1000, y: 1000, z: 1000 }),
            r.norm == r.min,
            r.max == r.min,
            r.current == r.min,
            r.collision == CollisionKind::Clear,
    {
        DimensionsComponent::new(DimensionsVec::default())
    }

    /// A fixed size of `dimensions` whole tiles.
    pub fn with_tiles(dimensions: Vec3i) -> (r: DimensionsComponent)
        requires
            tiles_fit(dimensions),
        ensures
            r.min == spec_from_tiles(dimensions),
            r.norm == r.min,
            r.max == r.min,
            r.current == r.min,
            r.collision == CollisionKind::Clear,
    {
        let dimensions = DimensionsVec::from_tiles(dimensions);
        DimensionsComponent {
            min: dimensions,
            norm: dimensions,
            max: dimensions,
            current: dimensions,
            collision: CollisionKind::default(),
        }
    }

    /// A fixed size that blocks as `collision` says.
    pub fn with_collision(dimensions: DimensionsVec, collision: CollisionKind) -> (r:
        DimensionsComponent)
        ensures
            r.min == dimensions,
            r.norm == dimensions,
            r.max == dimensions,
            r.current == dimensions,
            r.collision == collision,
    {
        DimensionsComponent {
            min: dimensions,
            norm: dimensions,
            max: dimensions,
            current: dimensions,
            collision,
        }
    }

    /// A fixed size that does not block.
    pub fn new(dimensions: DimensionsVec) -> (r: DimensionsComponent)
        ensures
            r.min == dimensions,
            r.norm == dimensions,
            r.max == dimensions,
            r.current == dimensions,
            r.collision == CollisionKind::Clear,
    {
        DimensionsComponent::with_collision(dimensions, CollisionKind::default())
    }

    /// A size that can vary from `min` to `max`, now at `norm`.
    pub fn with_minmax(min: DimensionsVec, norm: DimensionsVec, max: DimensionsVec) -> (r:
        DimensionsComponent)
        ensures
            r.min == min,
            r.norm == norm,
            r.max == max,
            r.current == norm,
            r.collision == CollisionKind::Clear,
    {
        DimensionsComponent { min, norm, max, current: norm, collision: CollisionKind::default() }
    }

    pub fn collision(&self) -> (r: CollisionKind)
        ensures
            r == self.collision,
    {
        self.collision
    }

    /// The whole tiles the current size covers.
    pub fn as_tiles(&self) -> (r: Vec3i)
        ensures
            r == spec_into_tiles(self.current),
    {
        self.current.into_tiles()
    }

    /// The box from the origin to the tiles covered.
    pub fn aabb(&self) -> (r: Aabbi)
        ensures
            r.min == (Vec3i { x: 0, y: 0, z: 0 }),
            r.max == spec_into_tiles(self.current),
    {
        Aabbi::new(Vec3i::new(0, 0, 0), self.as_tiles())
    }

    /// The box covered on the level of `coord`: as wide and deep as the
    /// entity, one level high.
    pub fn occupies_limit_z(&self, coord: Vec3i) -> (r: Aabbi)
        requires
            shift_fits(
                coord,
                Vec3i { x: spec_into_tiles(self.current).x, y: spec_into_tiles(self.current).y, z: 1 },
            ),
        ensures
            r.min == coord,
            r.max == (Vec3i {
                x: (coord.x + spec_into_tiles(self.current).x) as i32,
                y: (coord.y + spec_into_tiles(self.current).y) as i32,
                z: (coord.z + 1) as i32,
            }),
    {
        let current = self.as_tiles();
        Aabbi::new(coord, coord.add(Vec3i::new(current.x, current.y, 1)))
    }

    /// The box covered by the entity standing at `coord`: it reaches down
    /// from `coord` by its height.
    pub fn occupies(&self, coord: Vec3i) -> (r: Aabbi)
        requires
            shift_fits(
                coord,
                Vec3i {
                    x: spec_into_tiles(self.current).x,
                    y: spec_into_tiles(self.current).y,
                    z: -spec_into_tiles(self.current).z as i32,
                },
            ),
        ensures
            r.min == (Vec3i {
                x: (coord.x + spec_into_tiles(self.current).x) as i32,
                y: (coord.y + spec_into_tiles(self.current).y) as i32,
                z: (coord.z - spec_into_tiles(self.current).z) as i32,
            }),
            r.max == coord,
    {
        let tiles = self.as_tiles();
        let flipped = tiles.mul(Vec3i::new(1, 1, -1));
        Aabbi::new(coord.add(flipped), coord)
    }
}

/// The tile an entity stands on.
#[derive(Debug, Clone, Copy, PartialEq, Eq, Hash, Structural)]
pub struct PositionComponent {
    pub coord: Vec3i,
}

impl PositionComponent {
    pub fn new(coord: Vec3i) -> (r: PositionComponent)
        ensures
            r.coord == coord,
    {
        PositionComponent { coord }
    }
}

impl From<Vec3i> for PositionComponent {
    fn from(src: Vec3i) -> (r: PositionComponent) {
        PositionComponent { coord: src }
    }
}

impl vstd::std_specs::convert::FromSpecImpl<Vec3i> for PositionComponent {
    open spec fn obeys_from_spec() -> bool {
        true
    }

    open spec fn from_spec(src: Vec3i) -> PositionComponent {
        PositionComponent { coord: src }
    }
}

/// The value of one need.
#[derive(Debug, Clone, Copy, PartialEq, Eq, Structural)]
pub struct NeedState {
    pub value: i32,
}

/// One step of a decay on a need's value: the value moves by `amount` and
/// is held within `min..=max` (ending at `max` where `max < min`); when
/// the sum leaves `i32`, the value becomes `max`.
pub open spec fn spec_decay_step(value: i32, amount: i32, min: i32, max: i32) -> i32 {
    let sum = value + amount;
    if !fits_i32(sum) {
        max
    } else if sum < min {
        if min < max { min } else { max }
    } else if sum > max {
        max
    } else {
        sum as i32
    }
}

impl NeedState {
    /// A need at zero.
    pub fn default() -> (r: NeedState)
        ensures
            r.value == 0,
    {
        NeedState { value: 0 }
    }

    /// Applies one step of a decay of `amount` bounded by `minmax`.
    pub fn decay_step(&mut self, amount: i32, minmax: (i32, i32))
        ensures
            final(self).value == spec_decay_step(old(self).value, amount, minmax.0, minmax.1),
    {
        match self.value.checked_add(amount) {
            Some(val) => {
                let lower = if val < minmax.0 { minmax.0 } else { val };
                self.value = if lower > minmax.1 { minmax.1 } else { lower };
            },
            None => {
                self.value = minmax.1;
            },
        }
    }
}

/// The needs of a creature, one state per kind of need.
pub struct NeedsComponent(pub [NeedState; 3]);

/// The value of the need of kind `kind` in `needs`.
pub open spec fn need_value(needs: NeedsComponent, kind: NeedKind) -> i32 {
    needs.0[kind.index() as int].value
}

/// `value` moved by `delta` where the sum fits `i32`, else unchanged.
pub open spec fn checked_or_keep(value: i32, delta: int) -> i32 {
    if fits_i32(value + delta) {
        (value + delta) as i32
    } else {
        value
    }
}

impl NeedsComponent {
    /// Every need at zero.
    pub fn default() -> (r: NeedsComponent)
        ensures
            forall|k: NeedKind| #[trigger] need_value(r, k) == 0,
    {
        NeedsComponent([NeedState::default(), NeedState::default(), NeedState::default()])
    }

    /// Raises the need of kind `kind` by `value`, unless the sum leaves `i32`.
    pub fn add(&mut self, kind: NeedKind, value: i32)
        ensures
            need_value(*final(self), kind) == checked_or_keep(need_value(*old(self), kind), value as int),
            forall|k: NeedKind| k != kind ==> #[trigger] need_value(*final(self), k) == need_value(*old(self), k),
    {
        let i = kind.as_usize();
        let current = self.0[i].value;
        let next = match current.checked_add(value) {
            Some(v) => v,
            None => current,
        };
        self.0[i] = NeedState { value: next };
        proof {
            assert forall|k: NeedKind| k != kind implies #[trigger] need_value(*self, k) == need_value(*old(self), k) by {
                NeedKind::lemma_index_injective(k, kind);
            }
        }
    }

    /// Lowers the need of kind `kind` by `value`, unless the difference leaves `i32`.
    pub fn sub(&mut self, kind: NeedKind, value: i32)
        ensures
            need_value(*final(self), kind) == checked_or_keep(need_value(*old(self), kind), -(value as int)),
            forall|k: NeedKind| k != kind ==> #[trigger] need_value(*final(self), k) == need_value(*old(self), k),
    {
        let i = kind.as_usize();
        let current = self.0[i].value;
        let next = match current.checked_sub(value) {
            Some(v) => v,
            None => current,
        };
        self.0[i] = NeedState { value: next };
        proof {
            assert forall|k: NeedKind| k != kind implies #[trigger] need_value(*self, k) == need_value(*old(self), k) by {
                NeedKind::lemma_index_injective(k, kind);
            }
        }
    }

    /// The state of the need of kind `kind`.
    pub fn get(&self, kind: NeedKind) -> (r: &NeedState)
        ensures
            r.value == need_value(*self, kind),
    {
        &self.0[kind.as_usize()]
    }

    /// The state of the need of kind `kind`, to change in place.
    pub fn get_mut(&mut self, kind: NeedKind) -> (r: &mut NeedState)
        ensures
            r.value == need_value(*old(self), kind),
            need_value(*final(self), kind) == final(r).value,
            forall|k: NeedKind| k != kind ==> #[trigger] need_value(*final(self), k) == need_value(*old(self), k),
    {
        proof {
            assert forall|k: NeedKind| k != kind implies k.index() != kind.index() by {
                NeedKind::lemma_index_injective(k, kind);
            }
        }
        &mut self.0[kind.as_usize()]
    }
}

/// Raising a need and lowering it by the same amount gives its value back,
/// when neither step leaves `i32`.
pub proof fn lemma_need_add_sub(value: i32, delta: i32)
    requires
        fits_i32(value + delta),
    ensures
        checked_or_keep(checked_or_keep(value, delta as int), -(delta as int)) == value,
{
}

} // verus!

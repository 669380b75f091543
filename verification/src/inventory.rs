//! Inventories: whether a container has room for an item, whether a
//! container or a carrier holds an item, taking an item out, and walking
//! the items a creature has on it.
use vstd::prelude::*;
use std::cmp::Ordering;
use crate::components::{CarryComponent, Entity, ItemContainerComponent, carried, first_holding, without, first_empty};
use crate::data::bt::PickupDestination;
use crate::data::DimensionsVec;
use crate::defs::item::{ItemComponent, ItemDefinition};
use crate::math::fits_u32;
use crate::small::{entities32, entities3, limbs2};

verus! {

/// How `compare_volumes` orders two sizes: `Greater` when `a` is larger
/// than `b` along some axis, or equal to it along all three; `Less`
/// otherwise.
pub open spec fn volume_exceeds(a: DimensionsVec, b: DimensionsVec) -> bool {
    ||| a.0.x > b.0.x
    ||| a.0.y > b.0.y
    ||| a.0.z > b.0.z
    ||| (a.0.x == b.0.x && a.0.y == b.0.y && a.0.z == b.0.z)
}

/// Compares two sizes axis by axis: `Greater` when `a` exceeds `b` along
/// some axis or equals it along all, `Less` otherwise. It never answers
/// `Equal`.
pub fn compare_volumes(a: DimensionsVec, b: DimensionsVec) -> (r: Ordering)
    ensures
        volume_exceeds(a, b) ==> r == Ordering::Greater,
        !volume_exceeds(a, b) ==> r == Ordering::Less,
{
    if a.0.x > b.0.x || a.0.y > b.0.y || a.0.z > b.0.z {
        return Ordering::Greater;
    }
    if a.0.x == b.0.x && a.0.y == b.0.y && a.0.z == b.0.z {
        return Ordering::Greater;
    }
    Ordering::Less
}

/// The sum of two sizes fits `u32` along each axis.
pub open spec fn sum_fits(a: DimensionsVec, b: DimensionsVec) -> bool {
    &&& fits_u32(a.0.x + b.0.x)
    &&& fits_u32(a.0.y + b.0.y)
    &&& fits_u32(a.0.z + b.0.z)
}

/// The container's contents with the item added.
pub open spec fn with_item(container: DimensionsVec, item: DimensionsVec) -> DimensionsVec {
    DimensionsVec(crate::math::Vec3u {
        x: (container.0.x + item.0.x) as u32,
        y: (container.0.y + item.0.y) as u32,
        z: (container.0.z + item.0.z) as u32,
    })
}

/// Answers `true` exactly when the container's contents with the item
/// added compare `Greater` than its capacity: when they would exceed it
/// along some axis, or fill it exactly.
pub fn can_contain_item(container: &ItemContainerComponent, item: &ItemDefinition) -> (r: bool)
    requires
        sum_fits(container.consumed, item.dimensions),
    ensures
        r == volume_exceeds(with_item(container.consumed, item.dimensions), container.capacity),
{
    let total = container.consumed.add(item.dimensions);
    match compare_volumes(total, container.capacity) {
        Ordering::Greater => true,
        _ => false,
    }
}

/// Whether some limb of `carry` holds `item`.
pub fn carry_has_item(carry: &CarryComponent, item: Entity) -> (r: bool)
    ensures
        r == exists|i: int| 0 <= i < limbs2(carry.limbs).len() && #[trigger] limbs2(carry.limbs)[i].1 == Some(item),
{
    let n = carry.limbs.len();
    let mut i: usize = 0;
    while i < n
        invariant
            n == limbs2(carry.limbs).len(),
            i <= n,
            forall|j: int| 0 <= j < i ==> #[trigger] limbs2(carry.limbs)[j].1 != Some(item),
        decreases n - i,
    {
        let limb = carry.limbs.get(i);
        if let Some(carrying) = limb.1 {
            if carrying == item {
                return true;
            }
        }
        i = i + 1;
    }
    false
}

/// Whether `item` is directly inside `container`.
pub fn container_has_item(container: &ItemContainerComponent, item: Entity) -> (r: bool)
    ensures
        r == entities32(container.inside).contains(item),
{
    let n = container.inside.len();
    let mut i: usize = 0;
    while i < n
        invariant
            n == entities32(container.inside).len(),
            i <= n,
            forall|j: int| 0 <= j < i ==> entities32(container.inside)[j] != item,
        decreases n - i,
    {
        if container.inside.get(i) == item {
            return true;
        }
        i = i + 1;
    }
    false
}

/// The containers, carriers and items of the world, each component with
/// the entity it belongs to. An entity has at most one component of each
/// kind.
pub struct ItemWorld {
    containers: Vec<(Entity, ItemContainerComponent)>,
    carriers: Vec<(Entity, CarryComponent)>,
    items: Vec<(Entity, ItemComponent)>,
}

/// The position of `e`'s entry in `entries`, if it has one.
pub open spec fn entry_of<T>(entries: Seq<(Entity, T)>, e: Entity, i: int) -> bool {
    0 <= i < entries.len() && entries[i].0 == e
}

/// No entity has two entries.
pub open spec fn distinct_entities<T>(entries: Seq<(Entity, T)>) -> bool {
    forall|i: int, j: int| entry_of(entries, entries[i].0, i) && entry_of(entries, entries[i].0, j) ==> i == j
}

/// The component of `e` in `entries`, if it has one.
pub open spec fn component_of<T>(entries: Seq<(Entity, T)>, e: Entity) -> Option<T> {
    if exists|i: int| entry_of(entries, e, i) {
        Some(entries[choose|i: int| entry_of(entries, e, i)].1)
    } else {
        None
    }
}

/// Finds the position of `e` among the entities of `entries`.
fn find_entry<T>(entries: &Vec<(Entity, T)>, e: Entity) -> (r: Option<usize>)
    requires
        distinct_entities(entries@),
    ensures
        match r {
            Some(i) => entry_of(entries@, e, i as int) && component_of(entries@, e) == Some(entries@[i as int].1),
            None => component_of(entries@, e) is None,
        },
{
    let mut i: usize = 0;
    while i < entries.len()
        invariant
            i <= entries@.len(),
            distinct_entities(entries@),
            forall|j: int| 0 <= j < i ==> entries@[j].0 != e,
        decreases entries@.len() - i,
    {
        if entries[i].0 == e {
            proof {
                assert(entry_of(entries@, e, i as int));
                let k = choose|k: int| entry_of(entries@, e, k);
                assert(entry_of(entries@, entries@[i as int].0, i as int));
                assert(entry_of(entries@, entries@[i as int].0, k));
            }
            return Some(i);
        }
        i = i + 1;
    }
    None
}

impl ItemWorld {
    pub closed spec fn spec_containers(&self) -> Seq<(Entity, ItemContainerComponent)> {
        self.containers@
    }

    pub closed spec fn spec_carriers(&self) -> Seq<(Entity, CarryComponent)> {
        self.carriers@
    }

    pub closed spec fn spec_items(&self) -> Seq<(Entity, ItemComponent)> {
        self.items@
    }

    /// The container component of `e`, if it has one.
    pub open spec fn container_of(&self, e: Entity) -> Option<ItemContainerComponent> {
        component_of(self.spec_containers(), e)
    }

    /// The carry component of `e`, if it has one.
    pub open spec fn carrier_of(&self, e: Entity) -> Option<CarryComponent> {
        component_of(self.spec_carriers(), e)
    }

    /// The item component of `e`, if it has one.
    pub open spec fn item_of(&self, e: Entity) -> Option<ItemComponent> {
        component_of(self.spec_items(), e)
    }

    /// No entity has two components of one kind.
    pub open spec fn wf(&self) -> bool {
        &&& distinct_entities(self.spec_containers())
        &&& distinct_entities(self.spec_carriers())
        &&& distinct_entities(self.spec_items())
    }

    /// A world with no component.
    pub fn new() -> (r: ItemWorld)
        ensures
            r.wf(),
            r.spec_containers().len() == 0,
            r.spec_carriers().len() == 0,
            r.spec_items().len() == 0,
    {
        ItemWorld { containers: Vec::new(), carriers: Vec::new(), items: Vec::new() }
    }

    /// Gives `e` the container `c`, unless it has one; tells whether it did.
    pub fn add_container(&mut self, e: Entity, c: ItemContainerComponent) -> (r: bool)
        requires
            old(self).wf(),
        ensures
            final(self).wf(),
            r == (old(self).container_of(e) is None),
            r ==> final(self).spec_containers() == old(self).spec_containers().push((e, c)),
            !r ==> final(self).spec_containers() == old(self).spec_containers(),
            final(self).spec_carriers() == old(self).spec_carriers(),
            final(self).spec_items() == old(self).spec_items(),
    {
        match find_entry(&self.containers, e) {
            Some(_) => false,
            None => {
                proof {
                    assert(forall|k: int| !entry_of(self.containers@, e, k));
                }
                self.containers.push((e, c));
                proof {
                    let s = self.containers@;
                    assert forall|i: int, j: int| entry_of(s, s[i].0, i) && entry_of(s, s[i].0, j) implies i == j by {
                        if i < s.len() - 1 && j < s.len() - 1 {
                            assert(entry_of(old(self).containers@, old(self).containers@[i].0, i));
                            assert(entry_of(old(self).containers@, old(self).containers@[i].0, j));
                        } else if i < s.len() - 1 {
                            assert(entry_of(old(self).containers@, e, i));
                        } else if j < s.len() - 1 {
                            assert(entry_of(old(self).containers@, e, j));
                        }
                    }
                }
                true
            },
        }
    }

    /// Gives `e` the carry component `c`, unless it has one; tells whether it did.
    pub fn add_carrier(&mut self, e: Entity, c: CarryComponent) -> (r: bool)
        requires
            old(self).wf(),
        ensures
            final(self).wf(),
            r == (old(self).carrier_of(e) is None),
            r ==> final(self).spec_carriers() == old(self).spec_carriers().push((e, c)),
            !r ==> final(self).spec_carriers() == old(self).spec_carriers(),
            final(self).spec_containers() == old(self).spec_containers(),
            final(self).spec_items() == old(self).spec_items(),
    {
        match find_entry(&self.carriers, e) {
            Some(_) => false,
            None => {
                proof {
                    assert(forall|k: int| !entry_of(self.carriers@, e, k));
                }
                self.carriers.push((e, c));
                proof {
                    let s = self.carriers@;
                    assert forall|i: int, j: int| entry_of(s, s[i].0, i) && entry_of(s, s[i].0, j) implies i == j by {
                        if i < s.len() - 1 && j < s.len() - 1 {
                            assert(entry_of(old(self).carriers@, old(self).carriers@[i].0, i));
                            assert(entry_of(old(self).carriers@, old(self).carriers@[i].0, j));
                        } else if i < s.len() - 1 {
                            assert(entry_of(old(self).carriers@, e, i));
                        } else if j < s.len() - 1 {
                            assert(entry_of(old(self).carriers@, e, j));
                        }
                    }
                }
                true
            },
        }
    }

    /// Gives `e` the item component `c`, unless it has one; tells whether it did.
    pub fn add_item(&mut self, e: Entity, c: ItemComponent) -> (r: bool)
        requires
            old(self).wf(),
        ensures
            final(self).wf(),
            r == (old(self).item_of(e) is None),
            r ==> final(self).spec_items() == old(self).spec_items().push((e, c)),
            !r ==> final(self).spec_items() == old(self).spec_items(),
            final(self).spec_containers() == old(self).spec_containers(),
            final(self).spec_carriers() == old(self).spec_carriers(),
    {
        match find_entry(&self.items, e) {
            Some(_) => false,
            None => {
                proof {
                    assert(forall|k: int| !entry_of(self.items@, e, k));
                }
                self.items.push((e, c));
                proof {
                    let s = self.items@;
                    assert forall|i: int, j: int| entry_of(s, s[i].0, i) && entry_of(s, s[i].0, j) implies i == j by {
                        if i < s.len() - 1 && j < s.len() - 1 {
                            assert(entry_of(old(self).items@, old(self).items@[i].0, i));
                            assert(entry_of(old(self).items@, old(self).items@[i].0, j));
                        } else if i < s.len() - 1 {
                            assert(entry_of(old(self).items@, e, i));
                        } else if j < s.len() - 1 {
                            assert(entry_of(old(self).items@, e, j));
                        }
                    }
                }
                true
            },
        }
    }

    /// The container component of `e`.
    pub fn container(&self, e: Entity) -> (r: Option<&ItemContainerComponent>)
        requires
            self.wf(),
        ensures
            match r {
                Some(c) => self.container_of(e) == Some(*c),
                None => self.container_of(e) is None,
            },
    {
        match find_entry(&self.containers, e) {
            Some(i) => Some(&self.containers[i].1),
            None => None,
        }
    }

    /// The carry component of `e`.
    pub fn carrier(&self, e: Entity) -> (r: Option<&CarryComponent>)
        requires
            self.wf(),
        ensures
            match r {
                Some(c) => self.carrier_of(e) == Some(*c),
                None => self.carrier_of(e) is None,
            },
    {
        match find_entry(&self.carriers, e) {
            Some(i) => Some(&self.carriers[i].1),
            None => None,
        }
    }

    /// The item component of `e`.
    pub fn item(&self, e: Entity) -> (r: Option<ItemComponent>)
        requires
            self.wf(),
        ensures
            r == self.item_of(e),
    {
        match find_entry(&self.items, e) {
            Some(i) => Some(self.items[i].1),
            None => None,
        }
    }
}

/// Whether `item` is inside `container` or inside a container that is
/// directly inside it.
pub open spec fn holds_nested(world: ItemWorld, inside: Seq<Entity>, item: Entity) -> bool {
    exists|i: int|
        0 <= i < inside.len() && (inside[i] == item || (world.container_of(inside[i]) matches Some(sub) && entities32(sub.inside).contains(item)))
}

/// Whether `item` is inside `container`, or inside a container directly
/// inside it (one level down, no deeper).
pub fn container_has_item_recursive(world: &ItemWorld, container: &ItemContainerComponent, item: Entity) -> (r: bool)
    requires
        world.wf(),
    ensures
        r == holds_nested(*world, entities32(container.inside), item),
{
    let ghost inside = entities32(container.inside);
    let n = container.inside.len();
    let mut i: usize = 0;
    while i < n
        invariant
            world.wf(),
            inside == entities32(container.inside),
            n == inside.len(),
            i <= n,
            forall|j: int|
                0 <= j < i ==> !(inside[j] == item || (world.container_of(inside[j]) matches Some(sub) && entities32(sub.inside).contains(item))),
        decreases n - i,
    {
        let e = container.inside.get(i);
        if e == item {
            return true;
        }
        match world.container(e) {
            Some(sub) => {
                if container_has_item(sub, item) {
                    return true;
                }
            },
            None => {},
        }
        i = i + 1;
    }
    proof {
        assert forall|j: int| 0 <= j < inside.len() implies !(inside[j] == item || (world.container_of(inside[j]) matches Some(sub) && entities32(sub.inside).contains(item))) by {
        }
    }
    false
}

/// Replacing the component of the entity at position `i` changes what
/// that entity has and nothing else.
pub proof fn lemma_component_update<T>(s: Seq<(Entity, T)>, i: int, v: T, e: Entity)
    requires
        distinct_entities(s),
        0 <= i < s.len(),
    ensures
        distinct_entities(s.update(i, (s[i].0, v))),
        e == s[i].0 ==> component_of(s.update(i, (s[i].0, v)), e) == Some(v),
        e != s[i].0 ==> component_of(s.update(i, (s[i].0, v)), e) == component_of(s, e),
{
    let t = s.update(i, (s[i].0, v));
    assert forall|a: int, b: int| entry_of(t, t[a].0, a) && entry_of(t, t[a].0, b) implies a == b by {
        assert(entry_of(s, s[a].0, a));
        assert(entry_of(s, s[a].0, b));
    }
    assert(entry_of(s, s[i].0, i));
    assert(entry_of(t, s[i].0, i));
    if e == s[i].0 {
        let k = choose|k: int| entry_of(t, e, k);
        assert(entry_of(t, t[i].0, i));
        assert(entry_of(t, t[i].0, k));
    } else {
        assert forall|k: int| entry_of(t, e, k) <==> entry_of(s, e, k) by {
        }
    }
}

/// What `remove_item` does to the world.
pub enum Removal {
    /// The holder's container holds the item, possibly one level down; it
    /// is taken out of the container's own contents.
    FromContainer,
    /// The holder's carry component holds the item; its first holding limb
    /// is emptied.
    FromCarrier,
    /// Nothing changes.
    Nothing,
}

/// Whether `holder`'s container holds `item`, directly or one level down.
pub open spec fn container_holds(world: ItemWorld, holder: Entity, item: Entity) -> bool {
    match world.container_of(holder) {
        Some(c) => holds_nested(world, entities32(c.inside), item),
        None => false,
    }
}

/// Whether a limb of `holder` carries `item`.
pub open spec fn carrier_holds(world: ItemWorld, holder: Entity, item: Entity) -> bool {
    match world.carrier_of(holder) {
        Some(k) => exists|i: int| 0 <= i < limbs2(k.limbs).len() && #[trigger] limbs2(k.limbs)[i].1 == Some(item),
        None => false,
    }
}

/// Which way `remove_item` goes for `holder` and `item`.
pub open spec fn removal(world: ItemWorld, holder: Entity, item: Entity) -> Removal {
    if container_holds(world, holder, item) {
        Removal::FromContainer
    } else if carrier_holds(world, holder, item) {
        Removal::FromCarrier
    } else {
        Removal::Nothing
    }
}

impl ItemWorld {
    /// Takes `item` from `holder`: out of its container when the container
    /// holds it (directly or one level down), else out of the limb that
    /// carries it. Tells whether it was taken; from a container it is
    /// taken only when it lies directly inside.
    pub fn remove_item(&mut self, holder: Entity, item: Entity) -> (r: bool)
        requires
            old(self).wf(),
        ensures
            final(self).wf(),
            final(self).spec_items() == old(self).spec_items(),
            match removal(*old(self), holder, item) {
                Removal::FromContainer => {
                    &&& old(self).container_of(holder) matches Some(c)
                    &&& final(self).container_of(holder) matches Some(c2)
                    &&& r == entities32(c.inside).contains(item)
                    &&& entities32(c2.inside) == without(entities32(c.inside), item)
                    &&& entities3(c2.queued_inside) == entities3(c.queued_inside)
                    &&& c2.capacity == c.capacity
                    &&& c2.consumed == c.consumed
                    &&& forall|e: Entity| e != holder ==> #[trigger] final(self).container_of(e) == old(self).container_of(e)
                    &&& final(self).spec_carriers() == old(self).spec_carriers()
                },
                Removal::FromCarrier => {
                    &&& r
                    &&& old(self).carrier_of(holder) matches Some(k)
                    &&& final(self).carrier_of(holder) matches Some(k2)
                    &&& exists|i: int| first_holding(limbs2(k.limbs), item, i)
                        && limbs2(k2.limbs) == limbs2(k.limbs).update(i, (limbs2(k.limbs)[i].0, None))
                    &&& forall|e: Entity| e != holder ==> #[trigger] final(self).carrier_of(e) == old(self).carrier_of(e)
                    &&& final(self).spec_containers() == old(self).spec_containers()
                },
                Removal::Nothing => {
                    &&& !r
                    &&& final(self).spec_containers() == old(self).spec_containers()
                    &&& final(self).spec_carriers() == old(self).spec_carriers()
                },
            },
    {
        match find_entry(&self.containers, holder) {
            Some(ci) => {
                if container_has_item_recursive(self, &self.containers[ci].1, item) {
                    let ghost before = self.containers@;
                    let mut entry = self.containers.remove(ci);
                    let r = entry.1.remove(item);
                    self.containers.insert(ci, entry);
                    proof {
                        assert(self.containers@ == before.update(ci as int, (before[ci as int].0, entry.1)));
                        assert forall|e: Entity| true implies
                            (e == holder ==> component_of(self.containers@, e) == Some(entry.1))
                            && (e != holder ==> component_of(self.containers@, e) == component_of(before, e)) by {
                            lemma_component_update(before, ci as int, entry.1, e);
                        }
                        lemma_component_update(before, ci as int, entry.1, holder);
                        assert(old(self).container_of(holder) == Some(before[ci as int].1));
                        assert(removal(*old(self), holder, item) is FromContainer);
                        assert(self.container_of(holder) == Some(entry.1));
                        assert(self.wf());
                        assert(r == entities32(before[ci as int].1.inside).contains(item));
                        
                        assert(forall|e: Entity| e != holder ==> #[trigger] self.container_of(e) == old(self).container_of(e));
                        assert(self.spec_carriers() == old(self).spec_carriers());
                        assert(self.spec_items() == old(self).spec_items());
                        assert(entities3(entry.1.queued_inside) == entities3(before[ci as int].1.queued_inside));
                        assert(entry.1.capacity == before[ci as int].1.capacity);
                        assert(entry.1.consumed == before[ci as int].1.consumed);
                    }
                    return r;
                }
            },
            None => {},
        }
        proof {
            assert(!container_holds(*old(self), holder, item));
        }
        match find_entry(&self.carriers, holder) {
            Some(ki) => {
                if carry_has_item(&self.carriers[ki].1, item) {
                    let ghost before = self.carriers@;
                    let mut entry = self.carriers.remove(ki);
                    let r = entry.1.remove(item);
                    self.carriers.insert(ki, entry);
                    proof {
                        assert(self.carriers@ == before.update(ki as int, (before[ki as int].0, entry.1)));
                        assert forall|e: Entity| true implies
                            (e == holder ==> component_of(self.carriers@, e) == Some(entry.1))
                            && (e != holder ==> component_of(self.carriers@, e) == component_of(before, e)) by {
                            lemma_component_update(before, ki as int, entry.1, e);
                        }
                        lemma_component_update(before, ki as int, entry.1, holder);
                        let k = before[ki as int].1;
                        let w = choose|w: int| 0 <= w < limbs2(k.limbs).len() && #[trigger] limbs2(k.limbs)[w].1 == Some(item);
                        assert(exists|i: int| first_holding(limbs2(k.limbs), item, i)) by {
                            lemma_first_holding_exists(limbs2(k.limbs), item, w);
                        }
                        assert(old(self).carrier_of(holder) == Some(k));
                        assert(0 <= w < limbs2(k.limbs).len() && limbs2(k.limbs)[w].1 == Some(item));
                        assert(exists|i: int| 0 <= i < limbs2(k.limbs).len() && #[trigger] limbs2(k.limbs)[i].1 == Some(item));
                        assert(carrier_holds(*old(self), holder, item));
                        assert(removal(*old(self), holder, item) is FromCarrier);
                    }
                    return r;
                }
            },
            None => {},
        }
        false
    }
}

/// Where a limb holds `item`, a first such limb exists.
pub proof fn lemma_first_holding_exists(limbs: Seq<(crate::components::PartGraphId, Option<Entity>)>, item: Entity, w: int)
    requires
        0 <= w < limbs.len(),
        limbs[w].1 == Some(item),
    ensures
        exists|i: int| first_holding(limbs, item, i),
    decreases w,
{
    if forall|j: int| 0 <= j < w ==> limbs[j].1 != Some(item) {
        assert(first_holding(limbs, item, w));
    } else {
        let j = choose|j: int| 0 <= j < w && limbs[j].1 != Some(item) == false;
        lemma_first_holding_exists(limbs, item, j);
    }
}

/// How a walk over items ends: at the first item the predicate accepts,
/// at the end, or never (at an item that is itself a container, which the
/// walk would enter by starting over from the same source).
pub enum Walk {
    Found(Entity),
    NotFound,
    Diverges,
}

/// Walks `items` in order for `source`: an item with an item component
/// that `pred` accepts ends the walk; an entity that has a container and
/// was not accepted makes it start over, forever.
pub open spec fn walk(
    world: ItemWorld,
    source: Entity,
    items: Seq<Entity>,
    pred: spec_fn(Entity, Entity, ItemComponent) -> bool,
) -> Walk
    decreases items.len(),
{
    if items.len() == 0 {
        Walk::NotFound
    } else {
        let e = items[0];
        if world.item_of(e) matches Some(c) && pred(source, e, c) {
            Walk::Found(e)
        } else if world.container_of(e) is Some {
            Walk::Diverges
        } else {
            walk(world, source, items.drop_first(), pred)
        }
    }
}

/// The items `source` carries, in limb order.
pub open spec fn carried_by(world: ItemWorld, source: Entity) -> Seq<Entity> {
    match world.carrier_of(source) {
        Some(k) => carried(limbs2(k.limbs)),
        None => Seq::empty(),
    }
}

/// The items directly inside `source`'s container, in order.
pub open spec fn contained_by(world: ItemWorld, source: Entity) -> Seq<Entity> {
    match world.container_of(source) {
        Some(c) => entities32(c.inside),
        None => Seq::empty(),
    }
}

/// The walk over what `source` carries, then over what its container holds.
pub open spec fn item_search(world: ItemWorld, source: Entity, pred: spec_fn(Entity, Entity, ItemComponent) -> bool) -> Walk {
    match walk(world, source, carried_by(world, source), pred) {
        Walk::NotFound => walk(world, source, contained_by(world, source), pred),
        w => w,
    }
}

/// Walks `items` from position `start`, as `walk` does.
fn walk_items<F: Fn(Entity, (Entity, &ItemComponent)) -> bool>(
    world: &ItemWorld,
    source: Entity,
    items: &Vec<Entity>,
    f: &F,
) -> (r: Option<(Entity, Entity)>)
    requires
        world.wf(),
        forall|s: Entity, e: Entity, c: &ItemComponent| #[trigger] f.requires((s, (e, c))),
        forall|s: Entity, e: Entity, c: &ItemComponent, a: bool, b: bool|
            f.ensures((s, (e, c)), a) && f.ensures((s, (e, c)), b) ==> a == b,
        !(walk(*world, source, items@, |s: Entity, e: Entity, c: ItemComponent| f.ensures((s, (e, &c)), true)) is Diverges),
    ensures
        match walk(*world, source, items@, |s: Entity, e: Entity, c: ItemComponent| f.ensures((s, (e, &c)), true)) {
            Walk::Found(e) => r == Some((source, e)),
            _ => r is None,
        },
{
    let ghost pred = |s: Entity, e: Entity, c: ItemComponent| f.ensures((s, (e, &c)), true);
    let mut i: usize = 0;
    proof {
        assert(items@.subrange(0, items@.len() as int) == items@);
    }
    while i < items.len()
        invariant
            world.wf(),
            i <= items@.len(),
            forall|s: Entity, e: Entity, c: &ItemComponent| #[trigger] f.requires((s, (e, c))),
            forall|s: Entity, e: Entity, c: &ItemComponent, a: bool, b: bool|
                f.ensures((s, (e, c)), a) && f.ensures((s, (e, c)), b) ==> a == b,
            pred == (|s: Entity, e: Entity, c: ItemComponent| f.ensures((s, (e, &c)), true)),
            walk(*world, source, items@, pred) == walk(*world, source, items@.subrange(i as int, items@.len() as int), pred),
        decreases items@.len() - i,
    {
        let e = items[i];
        let ghost rest = items@.subrange(i as int, items@.len() as int);
        proof {
            assert(rest[0] == e);
            assert(rest.drop_first() == items@.subrange(i + 1, items@.len() as int));
        }
        match world.item(e) {
            Some(item) => {
                if f(source, (e, &item)) {
                    return Some((source, e));
                }
            },
            None => {},
        }
        if world.container(e).is_some() {
            proof {
                assert(walk(*world, source, rest, pred) is Diverges);
            }
            return None;
        }
        i = i + 1;
    }
    proof {
        assert(items@.subrange(i as int, items@.len() as int).len() == 0);
    }
    None
}

/// The first item `source` has on it that `f` accepts, looking through
/// what it carries and then what its container holds; with the source.
/// Where an entity the walk meets before the accepted item has a
/// container, the walk starts over from the source and never ends: the
/// contract leaves those inputs out.
pub fn for_all_items_recursive_impl<F: Fn(Entity, (Entity, &ItemComponent)) -> bool>(
    source: Entity,
    world: &ItemWorld,
    f: &F,
) -> (r: Option<(Entity, Entity)>)
    requires
        world.wf(),
        forall|s: Entity, e: Entity, c: &ItemComponent| #[trigger] f.requires((s, (e, c))),
        forall|s: Entity, e: Entity, c: &ItemComponent, a: bool, b: bool|
            f.ensures((s, (e, c)), a) && f.ensures((s, (e, c)), b) ==> a == b,
        !(item_search(*world, source, |s: Entity, e: Entity, c: ItemComponent| f.ensures((s, (e, &c)), true)) is Diverges),
    ensures
        match item_search(*world, source, |s: Entity, e: Entity, c: ItemComponent| f.ensures((s, (e, &c)), true)) {
            Walk::Found(e) => r == Some((source, e)),
            _ => r is None,
        },
{
    let carrying: Vec<Entity> = match world.carrier(source) {
        Some(carry) => carry.iter(),
        None => Vec::new(),
    };
    proof {
        assert(carrying@ == carried_by(*world, source));
    }
    match walk_items(world, source, &carrying, f) {
        Some(found) => {
            return Some(found);
        },
        None => {},
    }
    let inside: Vec<Entity> = match world.container(source) {
        Some(container) => container.inside_items(),
        None => Vec::new(),
    };
    proof {
        assert(inside@ == contained_by(*world, source));
    }
    walk_items(world, source, &inside, f)
}

/// The first item `source` has on it that `f` accepts, with the source;
/// see `for_all_items_recursive_impl`.
pub fn find_item_recursive<F: Fn(Entity, (Entity, &ItemComponent)) -> bool>(
    source: Entity,
    world: &ItemWorld,
    f: F,
) -> (r: Option<(Entity, Entity)>)
    requires
        world.wf(),
        forall|s: Entity, e: Entity, c: &ItemComponent| #[trigger] f.requires((s, (e, c))),
        forall|s: Entity, e: Entity, c: &ItemComponent, a: bool, b: bool|
            f.ensures((s, (e, c)), a) && f.ensures((s, (e, c)), b) ==> a == b,
        !(item_search(*world, source, |s: Entity, e: Entity, c: ItemComponent| f.ensures((s, (e, &c)), true)) is Diverges),
    ensures
        match item_search(*world, source, |s: Entity, e: Entity, c: ItemComponent| f.ensures((s, (e, &c)), true)) {
            Walk::Found(e) => r == Some((source, e)),
            _ => r is None,
        },
{
    for_all_items_recursive_impl(source, world, &f)
}

/// The items a visit over what `source` has on it meets, in order: each
/// with an item component, paired with the source.
pub open spec fn visits(world: ItemWorld, source: Entity, items: Seq<Entity>) -> Seq<(Entity, (Entity, ItemComponent))>
    decreases items.len(),
{
    if items.len() == 0 {
        Seq::empty()
    } else {
        let e = items[0];
        let rest = visits(world, source, items.drop_first());
        match world.item_of(e) {
            Some(c) => seq![(source, (e, c))] + rest,
            None => rest,
        }
    }
}

/// Whether none of `items` has a container.
pub open spec fn no_containers(world: ItemWorld, items: Seq<Entity>) -> bool {
    forall|i: int| 0 <= i < items.len() ==> #[trigger] world.container_of(items[i]) is None
}

/// Every item `source` has on it, what it carries first, then what its
/// container holds, each with the source: what a visitor passed to the
/// walk would be handed. A visitor never stops the walk, so an entity with
/// a container among them makes it start over forever; the contract leaves
/// those inputs out.
pub fn for_all_items_recursive(source: Entity, world: &ItemWorld) -> (r: Vec<(Entity, (Entity, ItemComponent))>)
    requires
        world.wf(),
        no_containers(*world, carried_by(*world, source)),
        no_containers(*world, contained_by(*world, source)),
    ensures
        r@ == visits(*world, source, carried_by(*world, source)) + visits(*world, source, contained_by(*world, source)),
{
    let carrying: Vec<Entity> = match world.carrier(source) {
        Some(carry) => carry.iter(),
        None => Vec::new(),
    };
    let inside: Vec<Entity> = match world.container(source) {
        Some(container) => container.inside_items(),
        None => Vec::new(),
    };
    let mut r: Vec<(Entity, (Entity, ItemComponent))> = Vec::new();
    collect_visits(world, source, &carrying, &mut r);
    collect_visits(world, source, &inside, &mut r);
    proof {
        assert(carrying@ == carried_by(*world, source));
        assert(inside@ == contained_by(*world, source));
    }
    r
}

/// The visits of a single entity.
pub proof fn lemma_visits_single(world: ItemWorld, source: Entity, e: Entity)
    ensures
        visits(world, source, seq![e]) == match world.item_of(e) {
            Some(c) => seq![(source, (e, c))],
            None => Seq::<(Entity, (Entity, ItemComponent))>::empty(),
        },
{
    let s = seq![e];
    assert(s.drop_first() == Seq::<Entity>::empty());
    assert(visits(world, source, s.drop_first()) == Seq::<(Entity, (Entity, ItemComponent))>::empty());
    match world.item_of(e) {
        Some(c) => {
            assert(seq![(source, (e, c))] + Seq::<(Entity, (Entity, ItemComponent))>::empty() == seq![(source, (e, c))]);
        },
        None => {},
    }
}

/// Visiting one more item at the end adds its visit at the end.
pub proof fn lemma_visits_push(world: ItemWorld, source: Entity, s: Seq<Entity>, e: Entity)
    ensures
        visits(world, source, s.push(e)) == visits(world, source, s) + visits(world, source, seq![e]),
    decreases s.len(),
{
    let t = s.push(e);
    if s.len() == 0 {
        assert(t == seq![e]);
    } else {
        assert(t.drop_first() == s.drop_first().push(e));
        lemma_visits_push(world, source, s.drop_first(), e);
        lemma_visits_single(world, source, e);
        let v1 = visits(world, source, s.drop_first());
        let v2 = visits(world, source, seq![e]);
        match world.item_of(s[0]) {
            Some(c) => {
                assert(seq![(source, (s[0], c))] + (v1 + v2) == (seq![(source, (s[0], c))] + v1) + v2);
            },
            None => {},
        }
    }
}

/// Appends to `out` the visits of `items`.
fn collect_visits(world: &ItemWorld, source: Entity, items: &Vec<Entity>, out: &mut Vec<(Entity, (Entity, ItemComponent))>)
    requires
        world.wf(),
    ensures
        final(out)@ == old(out)@ + visits(*world, source, items@),
{
    let ghost start = out@;
    let mut i: usize = 0;
    while i < items.len()
        invariant
            world.wf(),
            i <= items@.len(),
            out@ == start + visits(*world, source, items@.subrange(0, i as int)),
        decreases items@.len() - i,
    {
        let e = items[i];
        proof {
            let sub = items@.subrange(0, i as int);
            assert(items@.subrange(0, i + 1) == sub.push(e));
            lemma_visits_push(*world, source, sub, e);
            lemma_visits_single(*world, source, e);
        }
        match world.item(e) {
            Some(c) => {
                out.push((source, (e, c)));
                proof {
                    let sub = items@.subrange(0, i as int);
                    assert(visits(*world, source, seq![e]) == seq![(source, (e, c))]);
                    assert(start + visits(*world, source, sub) + seq![(source, (e, c))] == start + (visits(*world, source, sub) + seq![(source, (e, c))]));
                }
            },
            None => {
                proof {
                    let sub = items@.subrange(0, i as int);
                    assert(visits(*world, source, seq![e]) == Seq::<(Entity, (Entity, ItemComponent))>::empty());
                    assert(visits(*world, source, sub) + Seq::<(Entity, (Entity, ItemComponent))>::empty() == visits(*world, source, sub));
                }
            },
        }
        i = i + 1;
    }
    proof {
        assert(items@.subrange(0, items@.len() as int) == items@);
    }
}

/// Where `picker` puts the item `item` it picks up: nowhere when the item
/// is inside something already or another entity is picking it up; else
/// the first empty limb of `carry`, if there is one; else the picker's
/// container when `can_contain_item` answers `true` for it.
pub fn pickup_destination(
    picker: Entity,
    item: &ItemDefinition,
    inside_something: bool,
    pickup_initiator: Option<Entity>,
    carry: Option<&CarryComponent>,
    container: Option<&ItemContainerComponent>,
) -> (r: Option<PickupDestination>)
    requires
        container matches Some(c) ==> sum_fits(c.consumed, item.dimensions),
    ensures
        r == if inside_something {
            None
        } else if pickup_initiator matches Some(e) && e != picker {
            None
        } else if carry matches Some(c) && exists|i: int| first_empty(limbs2(c.limbs), i) {
            Some(PickupDestination::Carry(
                limbs2(carry.unwrap().limbs)[choose|i: int| first_empty(limbs2(carry.unwrap().limbs), i)].0))
        } else if container matches Some(c) && volume_exceeds(with_item(c.consumed, item.dimensions), c.capacity) {
            Some(PickupDestination::Container(picker))
        } else {
            None
        },
{
    if inside_something {
        return None;
    }
    if let Some(e) = pickup_initiator {
        if e != picker {
            return None;
        }
    }
    if let Some(c) = carry {
        match c.first_free() {
            Some(part) => {
                proof {
                    let i = choose|i: int| first_empty(limbs2(c.limbs), i) && limbs2(c.limbs)[i].0 == part;
                    let k = choose|k: int| first_empty(limbs2(c.limbs), k);
                    if i < k {
                        assert(limbs2(c.limbs)[i].1 is Some);
                    } else if k < i {
                        assert(limbs2(c.limbs)[k].1 is Some);
                    }
                }
                return Some(PickupDestination::Carry(part));
            },
            None => {
                proof {
                    assert forall|i: int| !first_empty(limbs2(c.limbs), i) by {
                        if 0 <= i < limbs2(c.limbs).len() {
                            assert(limbs2(c.limbs)[i].1 is Some);
                        }
                    }
                }
            },
        }
    }
    if let Some(c) = container {
        if can_contain_item(c, item) {
            return Some(PickupDestination::Container(picker));
        }
    }
    None
}

} // verus!

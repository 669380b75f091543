//! Small inline vectors of the `smallvec` crate, for the element types
//! the library stores in them. Each is an opaque holder of a
//! `smallvec::SmallVec`; its contents are named by a spec function, and
//! each method makes one call of `SmallVec`.
use vstd::prelude::*;
use smallvec::SmallVec;
use rand::seq::SliceRandom;
use crate::components::{Entity, PartGraphId, without};
use crate::math::Vec3i;

verus! {

/// The horizontal neighbors of a tile, held inline up to 8.
#[verifier::external_body]
pub struct Coords8 {
    inner: SmallVec<[Vec3i; 8]>,
}

/// The items of a `Coords8`, in order.
pub uninterp spec fn coords8(v: Coords8) -> Seq<Vec3i>;

impl Coords8 {
    /// An empty vector: `SmallVec::new`.
    #[verifier::external_body]
    pub fn new() -> (r: Coords8)
        ensures
            coords8(r) == Seq::<Vec3i>::empty(),
    {
        Coords8 { inner: SmallVec::new() }
    }

    /// Appends `value` at the end: `SmallVec::push`.
    #[verifier::external_body]
    pub fn push(&mut self, value: Vec3i)
        ensures
            coords8(*final(self)) == coords8(*old(self)).push(value),
    {
        self.inner.push(value)
    }

    /// The number of items: `SmallVec::len`.
    #[verifier::external_body]
    pub fn len(&self) -> (r: usize)
        ensures
            r == coords8(*self).len(),
    {
        self.inner.len()
    }

    /// The item at `index`: indexing through `SmallVec`'s `Deref` to a slice.
    #[verifier::external_body]
    pub fn get(&self, index: usize) -> (r: Vec3i)
        requires
            index < coords8(*self).len(),
        ensures
            r == coords8(*self)[index as int],
    {
        self.inner[index]
    }

    /// Replaces the item at `index`: indexing through `SmallVec`'s `DerefMut` to a slice.
    #[verifier::external_body]
    pub fn set(&mut self, index: usize, value: Vec3i)
        requires
            index < coords8(*old(self)).len(),
        ensures
            coords8(*final(self)) == coords8(*old(self)).update(index as int, value),
    {
        self.inner[index] = value;
    }

    /// Removes and returns the item at `index`, shifting the later ones: `SmallVec::remove`.
    #[verifier::external_body]
    pub fn remove(&mut self, index: usize) -> (r: Vec3i)
        requires
            index < coords8(*old(self)).len(),
        ensures
            r == coords8(*old(self))[index as int],
            coords8(*final(self)) == coords8(*old(self)).remove(index as int),
    {
        self.inner.remove(index)
    }
}

/// The neighbors of a tile on three levels, held inline up to 24.
#[verifier::external_body]
pub struct Coords24 {
    inner: SmallVec<[Vec3i; 24]>,
}

/// The items of a `Coords24`, in order.
pub uninterp spec fn coords24(v: Coords24) -> Seq<Vec3i>;

impl Coords24 {
    /// An empty vector: `SmallVec::new`.
    #[verifier::external_body]
    pub fn new() -> (r: Coords24)
        ensures
            coords24(r) == Seq::<Vec3i>::empty(),
    {
        Coords24 { inner: SmallVec::new() }
    }

    /// Appends `value` at the end: `SmallVec::push`.
    #[verifier::external_body]
    pub fn push(&mut self, value: Vec3i)
        ensures
            coords24(*final(self)) == coords24(*old(self)).push(value),
    {
        self.inner.push(value)
    }

    /// The number of items: `SmallVec::len`.
    #[verifier::external_body]
    pub fn len(&self) -> (r: usize)
        ensures
            r == coords24(*self).len(),
    {
        self.inner.len()
    }

    /// The item at `index`: indexing through `SmallVec`'s `Deref` to a slice.
    #[verifier::external_body]
    pub fn get(&self, index: usize) -> (r: Vec3i)
        requires
            index < coords24(*self).len(),
        ensures
            r == coords24(*self)[index as int],
    {
        self.inner[index]
    }

    /// Replaces the item at `index`: indexing through `SmallVec`'s `DerefMut` to a slice.
    #[verifier::external_body]
    pub fn set(&mut self, index: usize, value: Vec3i)
        requires
            index < coords24(*old(self)).len(),
        ensures
            coords24(*final(self)) == coords24(*old(self)).update(index as int, value),
    {
        self.inner[index] = value;
    }

    /// Removes and returns the item at `index`, shifting the later ones: `SmallVec::remove`.
    #[verifier::external_body]
    pub fn remove(&mut self, index: usize) -> (r: Vec3i)
        requires
            index < coords24(*old(self)).len(),
        ensures
            r == coords24(*old(self))[index as int],
            coords24(*final(self)) == coords24(*old(self)).remove(index as int),
    {
        self.inner.remove(index)
    }
}

/// The entities inside a container, held inline up to 32.
#[verifier::external_body]
pub struct Entities32 {
    inner: SmallVec<[Entity; 32]>,
}

/// The items of a `Entities32`, in order.
pub uninterp spec fn entities32(v: Entities32) -> Seq<Entity>;

impl Entities32 {
    /// An empty vector: `SmallVec::new`.
    #[verifier::external_body]
    pub fn new() -> (r: Entities32)
        ensures
            entities32(r) == Seq::<Entity>::empty(),
    {
        Entities32 { inner: SmallVec::new() }
    }

    /// Appends `value` at the end: `SmallVec::push`.
    #[verifier::external_body]
    pub fn push(&mut self, value: Entity)
        ensures
            entities32(*final(self)) == entities32(*old(self)).push(value),
    {
        self.inner.push(value)
    }

    /// The number of items: `SmallVec::len`.
    #[verifier::external_body]
    pub fn len(&self) -> (r: usize)
        ensures
            r == entities32(*self).len(),
    {
        self.inner.len()
    }

    /// The item at `index`: indexing through `SmallVec`'s `Deref` to a slice.
    #[verifier::external_body]
    pub fn get(&self, index: usize) -> (r: Entity)
        requires
            index < entities32(*self).len(),
        ensures
            r == entities32(*self)[index as int],
    {
        self.inner[index]
    }

    /// Replaces the item at `index`: indexing through `SmallVec`'s `DerefMut` to a slice.
    #[verifier::external_body]
    pub fn set(&mut self, index: usize, value: Entity)
        requires
            index < entities32(*old(self)).len(),
        ensures
            entities32(*final(self)) == entities32(*old(self)).update(index as int, value),
    {
        self.inner[index] = value;
    }

    /// Removes and returns the item at `index`, shifting the later ones: `SmallVec::remove`.
    #[verifier::external_body]
    pub fn remove(&mut self, index: usize) -> (r: Entity)
        requires
            index < entities32(*old(self)).len(),
        ensures
            r == entities32(*old(self))[index as int],
            entities32(*final(self)) == entities32(*old(self)).remove(index as int),
    {
        self.inner.remove(index)
    }
}

impl Entities32 {
    /// Keeps, in order, the entities other than `entity`: `SmallVec::retain`
    /// with a predicate that calls `is_other`.
    #[verifier::external_body]
    pub fn retain_other(&mut self, entity: Entity)
        ensures
            entities32(*final(self)) == without(entities32(*old(self)), entity),
    {
        self.inner.retain(|e| is_other(e, &entity))
    }
}

/// Whether `e` is another entity than `entity`.
pub fn is_other(e: &Entity, entity: &Entity) -> (r: bool)
    ensures
        r == (*e != *entity),
{
    *e != *entity
}

/// The entities queued to enter a container, held inline up to 3.
#[verifier::external_body]
pub struct Entities3 {
    inner: SmallVec<[Entity; 3]>,
}

/// The items of a `Entities3`, in order.
pub uninterp spec fn entities3(v: Entities3) -> Seq<Entity>;

impl Entities3 {
    /// An empty vector: `SmallVec::new`.
    #[verifier::external_body]
    pub fn new() -> (r: Entities3)
        ensures
            entities3(r) == Seq::<Entity>::empty(),
    {
        Entities3 { inner: SmallVec::new() }
    }

    /// Appends `value` at the end: `SmallVec::push`.
    #[verifier::external_body]
    pub fn push(&mut self, value: Entity)
        ensures
            entities3(*final(self)) == entities3(*old(self)).push(value),
    {
        self.inner.push(value)
    }

    /// The number of items: `SmallVec::len`.
    #[verifier::external_body]
    pub fn len(&self) -> (r: usize)
        ensures
            r == entities3(*self).len(),
    {
        self.inner.len()
    }

    /// The item at `index`: indexing through `SmallVec`'s `Deref` to a slice.
    #[verifier::external_body]
    pub fn get(&self, index: usize) -> (r: Entity)
        requires
            index < entities3(*self).len(),
        ensures
            r == entities3(*self)[index as int],
    {
        self.inner[index]
    }

    /// Replaces the item at `index`: indexing through `SmallVec`'s `DerefMut` to a slice.
    #[verifier::external_body]
    pub fn set(&mut self, index: usize, value: Entity)
        requires
            index < entities3(*old(self)).len(),
        ensures
            entities3(*final(self)) == entities3(*old(self)).update(index as int, value),
    {
        self.inner[index] = value;
    }

    /// Removes and returns the item at `index`, shifting the later ones: `SmallVec::remove`.
    #[verifier::external_body]
    pub fn remove(&mut self, index: usize) -> (r: Entity)
        requires
            index < entities3(*old(self)).len(),
        ensures
            r == entities3(*old(self))[index as int],
            entities3(*final(self)) == entities3(*old(self)).remove(index as int),
    {
        self.inner.remove(index)
    }
}

/// The limbs that carry, each with what it holds, held inline up to 2.
#[verifier::external_body]
pub struct Limbs2 {
    inner: SmallVec<[(PartGraphId, Option<Entity>); 2]>,
}

/// The items of a `Limbs2`, in order.
pub uninterp spec fn limbs2(v: Limbs2) -> Seq<(PartGraphId, Option<Entity>)>;

impl Limbs2 {
    /// An empty vector: `SmallVec::new`.
    #[verifier::external_body]
    pub fn new() -> (r: Limbs2)
        ensures
            limbs2(r) == Seq::<(PartGraphId, Option<Entity>)>::empty(),
    {
        Limbs2 { inner: SmallVec::new() }
    }

    /// Appends `value` at the end: `SmallVec::push`.
    #[verifier::external_body]
    pub fn push(&mut self, value: (PartGraphId, Option<Entity>))
        ensures
            limbs2(*final(self)) == limbs2(*old(self)).push(value),
    {
        self.inner.push(value)
    }

    /// The number of items: `SmallVec::len`.
    #[verifier::external_body]
    pub fn len(&self) -> (r: usize)
        ensures
            r == limbs2(*self).len(),
    {
        self.inner.len()
    }

    /// The item at `index`: indexing through `SmallVec`'s `Deref` to a slice.
    #[verifier::external_body]
    pub fn get(&self, index: usize) -> (r: (PartGraphId, Option<Entity>))
        requires
            index < limbs2(*self).len(),
        ensures
            r == limbs2(*self)[index as int],
    {
        self.inner[index]
    }

    /// Replaces the item at `index`: indexing through `SmallVec`'s `DerefMut` to a slice.
    #[verifier::external_body]
    pub fn set(&mut self, index: usize, value: (PartGraphId, Option<Entity>))
        requires
            index < limbs2(*old(self)).len(),
        ensures
            limbs2(*final(self)) == limbs2(*old(self)).update(index as int, value),
    {
        self.inner[index] = value;
    }

    /// Removes and returns the item at `index`, shifting the later ones: `SmallVec::remove`.
    #[verifier::external_body]
    pub fn remove(&mut self, index: usize) -> (r: (PartGraphId, Option<Entity>))
        requires
            index < limbs2(*old(self)).len(),
        ensures
            r == limbs2(*old(self))[index as int],
            limbs2(*final(self)) == limbs2(*old(self)).remove(index as int),
    {
        self.inner.remove(index)
    }
}

/// Walkable neighbors with the cost of stepping onto each, held inline up to 16.
#[verifier::external_body]
pub struct Steps16 {
    inner: SmallVec<[(Vec3i, u32); 16]>,
}

/// The items of a `Steps16`, in order.
pub uninterp spec fn steps16(v: Steps16) -> Seq<(Vec3i, u32)>;

impl Steps16 {
    /// An empty vector: `SmallVec::new`.
    #[verifier::external_body]
    pub fn new() -> (r: Steps16)
        ensures
            steps16(r) == Seq::<(Vec3i, u32)>::empty(),
    {
        Steps16 { inner: SmallVec::new() }
    }

    /// Appends `value` at the end: `SmallVec::push`.
    #[verifier::external_body]
    pub fn push(&mut self, value: (Vec3i, u32))
        ensures
            steps16(*final(self)) == steps16(*old(self)).push(value),
    {
        self.inner.push(value)
    }

    /// The number of items: `SmallVec::len`.
    #[verifier::external_body]
    pub fn len(&self) -> (r: usize)
        ensures
            r == steps16(*self).len(),
    {
        self.inner.len()
    }

    /// The item at `index`: indexing through `SmallVec`'s `Deref` to a slice.
    #[verifier::external_body]
    pub fn get(&self, index: usize) -> (r: (Vec3i, u32))
        requires
            index < steps16(*self).len(),
        ensures
            r == steps16(*self)[index as int],
    {
        self.inner[index]
    }
}

impl Coords8 {
    /// Puts the coordinates in a random order: `SliceRandom::shuffle` of the
    /// `rand` crate with `rand::thread_rng()`. The order is random; the
    /// contract states only that the same coordinates come out.
    #[verifier::external_body]
    pub fn shuffle(&mut self)
        ensures
            coords8(*final(self)).to_multiset() == coords8(*old(self)).to_multiset(),
    {
        self.inner.shuffle(&mut rand::thread_rng());
    }
}

} // verus!

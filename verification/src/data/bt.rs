//! The parameters behaviors hand each other: what to move to, pick up,
//! drop and haul.
use vstd::prelude::*;
use crate::components::{Entity, MovementRequest, PartGraphId};
use crate::math::Vec3i;

verus! {

/// What a behavior acts on: an entity or a tile.
#[derive(Debug, Clone, Copy, PartialEq, Eq, Structural)]
pub enum Target {
    Entity(Entity),
    Tile(Vec3i),
}

/// An item to drop, and where, if anywhere in particular.
#[derive(Debug, Clone, Copy)]
pub struct DropParameters {
    pub item: Entity,
    pub target: Option<Target>,
}

impl DropParameters {
    /// Drop `item` where the pawn stands.
    pub fn new(item: Entity) -> (r: DropParameters)
        ensures
            r.item == item,
            r.target is None,
    {
        DropParameters { item, target: None }
    }

    /// Drop `item` at `target`.
    pub fn with_target(item: Entity, target: Target) -> (r: DropParameters)
        ensures
            r.item == item,
            r.target == Some(target),
    {
        DropParameters { item, target: Some(target) }
    }
}

/// An item to haul to a tile of a stockpile.
#[derive(Debug, Clone, Copy)]
pub struct HaulParameters {
    pub stockpile: Entity,
    pub item: Entity,
    pub target_tile: Vec3i,
}

/// Where a picked up item goes: into a container, or into a limb.
#[derive(Debug, Clone, Copy, PartialEq, Eq, Structural)]
pub enum PickupDestination {
    Container(Entity),
    Carry(PartGraphId),
}

/// An item to pick up, and where it goes once chosen.
#[derive(Debug, Clone, Copy)]
pub struct PickupParameters {
    pub target: Entity,
    pub destination: Option<PickupDestination>,
}

impl PickupParameters {
    /// Pick up `target`, its destination not chosen yet.
    pub fn new(target: Entity) -> (r: PickupParameters)
        ensures
            r.target == target,
            r.destination is None,
    {
        PickupParameters { target, destination: None }
    }
}

/// Where to move to, and the movement requested for it so far, if any.
#[derive(Debug, Clone, Copy)]
pub struct MoveParameters {
    pub target: Target,
    pub active_request: Option<MovementRequest>,
}

impl MoveParameters {
    /// Move to `entity`.
    pub fn new_entity(entity: Entity) -> (r: MoveParameters)
        ensures
            r.target == Target::Entity(entity),
            r.active_request is None,
    {
        MoveParameters { target: Target::Entity(entity), active_request: None }
    }

    /// Move to `tile`.
    pub fn new_tile(tile: Vec3i) -> (r: MoveParameters)
        ensures
            r.target == Target::Tile(tile),
            r.active_request is None,
    {
        MoveParameters { target: Target::Tile(tile), active_request: None }
    }
}

} // verus!

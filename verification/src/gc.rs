//! Removing entities: the request to remove one, and when it is due.
use vstd::prelude::*;
use crate::components::{Destroy, Entity};

verus! {

/// A request to remove `entity` as `parameters` say.
#[derive(Debug, Clone, Copy)]
pub struct DestroyEvent {
    entity: Entity,
    parameters: Destroy,
}

impl DestroyEvent {
    pub closed spec fn spec_entity(&self) -> Entity {
        self.entity
    }

    pub closed spec fn spec_parameters(&self) -> Destroy {
        self.parameters
    }

    pub fn new(entity: Entity, parameters: Destroy) -> (r: DestroyEvent)
        ensures
            r.spec_entity() == entity,
            r.spec_parameters() == parameters,
    {
        DestroyEvent { entity, parameters }
    }

    pub fn entity(&self) -> (r: Entity)
        ensures
            r == self.spec_entity(),
    {
        self.entity
    }

    pub fn parameters(&self) -> (r: Destroy)
        ensures
            r == self.spec_parameters(),
    {
        self.parameters
    }
}

/// The frame an entity queued for removal is removed at.
#[derive(Debug, Clone, Copy, PartialEq, Eq, Structural)]
pub struct DestroyMeta {
    pub frame: u64,
}

/// The record for an entity queued at frame `now` with the given delay.
pub fn queue_destroy(parameters: Destroy, now: u64) -> (r: DestroyMeta)
    requires
        parameters.delay + now <= u64::MAX,
    ensures
        r.frame == parameters.delay + now,
{
    DestroyMeta { frame: parameters.delay + now }
}

/// Whether the entity is removed at frame `now`: when its frame is not
/// before `now`.
pub fn is_due(meta: &DestroyMeta, now: u64) -> (r: bool)
    ensures
        r == (meta.frame >= now),
{
    meta.frame >= now
}

/// An entity queued at a frame is due at that same frame, whatever its delay.
pub proof fn lemma_due_when_queued(parameters: Destroy, now: u64)
    requires
        parameters.delay + now <= u64::MAX,
    ensures
        (parameters.delay + now) as u64 >= now,
{
}

} // verus!

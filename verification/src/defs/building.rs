//! Buildings and workshops, creatures and races.
use vstd::prelude::*;
use crate::defs::{
    BodyDefinitionId, BuildingDefinitionId, CreatureDefinitionId, Definition, DefinitionDetails,
    RaceDefinitionId, ReactionDefinitionId, WorkshopDefinitionId,
};
use crate::defs::race::RaceAttributes;
use crate::math::Vec3i;

verus! {

/// Whether a building is placed as an entity or into tiles.
#[derive(Debug, Clone, Copy, Eq, PartialEq, Hash, Structural)]
pub enum PlacementKind {
    Entity,
    Tile,
}

/// What a building offers, one flag each.
#[derive(Debug, Clone, Copy, PartialEq, Eq, Hash, Structural)]
pub struct BuildingProperty {
    pub bits: u32,
}

/// A building: its properties, size in tiles and how it is placed.
pub struct BuildingDefinition {
    pub details: DefinitionDetails,
    pub id: BuildingDefinitionId,
    pub properties: Vec<BuildingProperty>,
    pub dimensions: Vec3i,
    pub placement: PlacementKind,
}

impl BuildingDefinition {
    /// Buildings are placed as entities unless their definition says otherwise.
    pub fn default_placement() -> (r: PlacementKind)
        ensures
            r == PlacementKind::Entity,
    {
        PlacementKind::Entity
    }
}

impl Definition for BuildingDefinition {
    open spec fn spec_name(&self) -> Seq<char> {
        self.details.spec_name()
    }

    open spec fn spec_id(&self) -> usize {
        self.id.0
    }

    fn name(&self) -> (r: &str) {
        self.details.name()
    }

    fn set_id(&mut self, id: usize) {
        self.id = BuildingDefinitionId(id);
    }
}

/// A workshop: the reactions it runs and the building it is.
pub struct WorkshopDefinition {
    pub details: DefinitionDetails,
    pub id: WorkshopDefinitionId,
    pub reactions: Vec<ReactionDefinitionId>,
    pub building: BuildingDefinitionId,
}

impl Definition for WorkshopDefinition {
    open spec fn spec_name(&self) -> Seq<char> {
        self.details.spec_name()
    }

    open spec fn spec_id(&self) -> usize {
        self.id.0
    }

    fn name(&self) -> (r: &str) {
        self.details.name()
    }

    fn set_id(&mut self, id: usize) {
        self.id = WorkshopDefinitionId(id);
    }
}

/// A race: its body and the attributes of its members.
pub struct RaceDefinition {
    pub details: DefinitionDetails,
    pub id: RaceDefinitionId,
    pub body: BodyDefinitionId,
    pub attributes: RaceAttributes,
}

impl Definition for RaceDefinition {
    open spec fn spec_name(&self) -> Seq<char> {
        self.details.spec_name()
    }

    open spec fn spec_id(&self) -> usize {
        self.id.0
    }

    fn name(&self) -> (r: &str) {
        self.details.name()
    }

    fn set_id(&mut self, id: usize) {
        self.id = RaceDefinitionId(id);
    }
}

/// A creature: its race and the decisions it weighs.
pub struct CreatureDefinition {
    pub details: DefinitionDetails,
    pub id: CreatureDefinitionId,
    pub race: RaceDefinitionId,
    pub decisions: Vec<String>,
}

impl Definition for CreatureDefinition {
    open spec fn spec_name(&self) -> Seq<char> {
        self.details.spec_name()
    }

    open spec fn spec_id(&self) -> usize {
        self.id.0
    }

    fn name(&self) -> (r: &str) {
        self.details.name()
    }

    fn set_id(&mut self, id: usize) {
        self.id = CreatureDefinitionId(id);
    }
}

} // verus!

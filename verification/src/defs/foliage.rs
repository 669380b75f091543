//! Plants.
use vstd::prelude::*;
use crate::data::{CollisionKind, DimensionsVec};
use crate::defs::{Definition, DefinitionDetails, DefinitionStorage, MaterialDefinitionId};
use crate::defs::needs::ProvidesNutrition;

verus! {

/// The kinds of plant.
#[derive(Debug, Clone, Copy, PartialEq, Eq, Hash, Structural)]
pub enum FoliageKind {
    Tree,
    Bush,
    Grass,
}

/// Refers to a plant definition by its position in the definition storage.
#[derive(Debug, Clone, Copy, PartialEq, Eq, Hash, Structural)]
pub struct FoliageDefinitionId(pub usize);

/// A plant: its kind, whether it blocks, its material, what it feeds and
/// its size.
pub struct FoliageDefinition {
    pub details: DefinitionDetails,
    pub id: FoliageDefinitionId,
    pub kind: FoliageKind,
    pub collision: CollisionKind,
    pub material: MaterialDefinitionId,
    pub nutrition: ProvidesNutrition,
    pub dimensions: DimensionsVec,
}

impl Definition for FoliageDefinition {
    open spec fn spec_name(&self) -> Seq<char> {
        self.details.spec_name()
    }

    open spec fn spec_id(&self) -> usize {
        self.id.0
    }

    fn name(&self) -> (r: &str) {
        self.details.name()
    }

    fn set_id(&mut self, id: usize) {
        self.id = FoliageDefinitionId(id);
    }
}

/// Places an entity as a plant of a definition.
#[derive(Debug, Clone, Copy, PartialEq, Eq, Hash, Structural)]
pub struct FoliageComponent {
    pub def: FoliageDefinitionId,
}

impl FoliageComponent {
    /// The plant's definition.
    pub fn fetch<'a>(&self, storage: &'a DefinitionStorage<FoliageDefinition>) -> (r: &'a FoliageDefinition)
        requires
            self.def.0 < storage.defs().len(),
        ensures
            *r == storage.defs()[self.def.0 as int],
    {
        match storage.get(self.def.0) {
            Some(d) => d,
            None => {
                proof {
                    assert(false);
                }
                storage.get(0).unwrap()
            },
        }
    }
}

} // verus!

//! Materials: their kinds, their states, and the definitions that give
//! each state its properties.
use vstd::prelude::*;
use crate::defs::{Definition, DefinitionDetails, DefinitionStorage, MaterialDefinitionId};
use crate::defs::needs::Nutrition;

verus! {

/// The state of matter a material is in. `Solid` is the default.
#[derive(Debug, Clone, Copy, Eq, PartialEq, Hash, Structural)]
pub enum MaterialState {
    Solid,
    Powder,
    Paste,
    Liquid,
    Frozen,
    Gas,
    Any,
}

impl MaterialState {
    pub fn default() -> (r: MaterialState)
        ensures
            r == MaterialState::Solid,
    {
        MaterialState::Solid
    }
}

/// The kinds of rock. `Any` is the default.
#[derive(Debug, Clone, Copy, Eq, PartialEq, Hash, Structural)]
pub enum RockSubKind {
    Igneous,
    Metamorphic,
    Sedimentary,
    Any,
}

impl RockSubKind {
    pub fn default() -> (r: RockSubKind)
        ensures
            r == RockSubKind::Any,
    {
        RockSubKind::Any
    }
}

/// The kinds of organic matter. `Any` is the default.
#[derive(Debug, Clone, Copy, Eq, PartialEq, Hash, Structural)]
pub enum OrganicSubKind {
    Wood,
    Bone,
    Flesh,
    Any,
}

impl OrganicSubKind {
    pub fn default() -> (r: OrganicSubKind)
        ensures
            r == OrganicSubKind::Any,
    {
        OrganicSubKind::Any
    }
}

/// The category of a material. `Todo` is the default.
#[derive(Debug, Clone, Copy, Eq, PartialEq, Hash, Structural)]
pub enum MaterialKind {
    Rock(RockSubKind),
    Organic(OrganicSubKind),
    Liquid,
    Soil,
    Todo,
}

impl MaterialKind {
    pub fn default() -> (r: MaterialKind)
        ensures
            r == MaterialKind::Todo,
    {
        MaterialKind::Todo
    }
}

/// What a material must be for a use: any material in a state, a kind of
/// material, the source of a reaction, or one material.
#[derive(Debug, Clone, Copy, PartialEq, Eq, Hash, Structural)]
pub enum MaterialLimit {
    Any(MaterialState),
    Kind(MaterialKind),
    Source,
    Material(MaterialDefinitionId),
}

impl MaterialLimit {
    /// Any solid material.
    pub fn default() -> (r: MaterialLimit)
        ensures
            r == MaterialLimit::Any(MaterialState::Solid),
    {
        MaterialLimit::Any(MaterialState::Solid)
    }
}

/// The physical properties of a material in one state.
#[derive(Debug, Clone)]
pub struct MaterialStateDefinition {
    pub details: DefinitionDetails,
    pub density: i64,
    pub hardness: i64,
    pub porosity: i64,
    pub permeability: i64,
    pub elasticity: i64,
    pub tensile_strength: i64,
    pub tensile_yield: i64,
    pub compressive_yield_strength: i64,
    pub fatigue_strength: i64,
    pub fracture_toughness: i64,
    pub flexural_strength: i64,
    pub shear_modulus: i64,
    pub poisson_ratio: i64,
    pub impact_toughness: i64,
    pub electric_resistance: i64,
    pub specific_heat_capacity: i64,
    pub thermal_conductivity: i64,
    pub abrasive_hardness: i64,
    pub nutrition: Nutrition,
}

/// A material: its category, the states it has, and the temperatures at
/// which it changes state.
#[derive(Debug)]
pub struct MaterialDefinition {
    pub details: DefinitionDetails,
    pub id: MaterialDefinitionId,
    pub inherits: Option<MaterialDefinitionId>,
    pub category: MaterialKind,
    pub states: Vec<(MaterialState, MaterialStateDefinition)>,
    pub melt_point: Option<i64>,
    pub boil_point: Option<i64>,
    pub ignite_point: Option<i64>,
    pub freeze_point: Option<i64>,
}

impl Definition for MaterialDefinition {
    open spec fn spec_name(&self) -> Seq<char> {
        self.details.spec_name()
    }

    open spec fn spec_id(&self) -> usize {
        self.id.0
    }

    fn name(&self) -> (r: &str) {
        self.details.name()
    }

    fn set_id(&mut self, id: usize) {
        self.id = MaterialDefinitionId(id);
    }
}

/// The position of the first definition of `state` among `states`.
pub open spec fn state_index(states: Seq<(MaterialState, MaterialStateDefinition)>, state: MaterialState, i: int) -> bool {
    &&& 0 <= i < states.len()
    &&& states[i].0 == state
    &&& forall|j: int| 0 <= j < i ==> states[j].0 != state
}

/// Whether `states` defines `state`.
pub open spec fn has_state(states: Seq<(MaterialState, MaterialStateDefinition)>, state: MaterialState) -> bool {
    exists|i: int| 0 <= i < states.len() && states[i].0 == state
}

/// The material an entity is made of, and the state it is in.
#[derive(Debug, Clone, Copy, PartialEq, Eq, Structural)]
pub struct MaterialComponent {
    def: MaterialDefinitionId,
    state: MaterialState,
}

impl MaterialComponent {
    pub closed spec fn spec_def(&self) -> MaterialDefinitionId {
        self.def
    }

    pub closed spec fn spec_state(&self) -> MaterialState {
        self.state
    }

    pub fn new(def: MaterialDefinitionId, state: MaterialState) -> (r: MaterialComponent)
        ensures
            r.spec_def() == def,
            r.spec_state() == state,
    {
        MaterialComponent { def, state }
    }

    /// The first material, solid.
    pub fn default() -> (r: MaterialComponent)
        ensures
            r.spec_def() == MaterialDefinitionId(0),
            r.spec_state() == MaterialState::Solid,
    {
        MaterialComponent { def: MaterialDefinitionId(0), state: MaterialState::Solid }
    }

    pub fn id(&self) -> (r: MaterialDefinitionId)
        ensures
            r == self.spec_def(),
    {
        self.def
    }

    pub fn state(&self) -> (r: MaterialState)
        ensures
            r == self.spec_state(),
    {
        self.state
    }

    /// The material's definition.
    pub fn fetch<'a>(&self, storage: &'a DefinitionStorage<MaterialDefinition>) -> (r: &'a MaterialDefinition)
        requires
            self.spec_def().0 < storage.defs().len(),
        ensures
            *r == storage.defs()[self.spec_def().0 as int],
    {
        match storage.get(self.def.0) {
            Some(d) => d,
            None => {
                proof {
                    assert(false);
                }
                storage.get(0).unwrap()
            },
        }
    }

    /// The definition of the state the material is in.
    pub fn fetch_state<'a>(&self, storage: &'a DefinitionStorage<MaterialDefinition>) -> (r:
        &'a MaterialStateDefinition)
        requires
            self.spec_def().0 < storage.defs().len(),
            has_state(storage.defs()[self.spec_def().0 as int].states@, self.spec_state()),
        ensures
            exists|i: int|
                state_index(storage.defs()[self.spec_def().0 as int].states@, self.spec_state(), i)
                    && *r == storage.defs()[self.spec_def().0 as int].states@[i].1,
    {
        let def = self.fetch(storage);
        let n = def.states.len();
        let mut i: usize = 0;
        while i < n
            invariant
                n == def.states@.len(),
                i <= n,
                *def == storage.defs()[self.spec_def().0 as int],
                has_state(def.states@, self.state),
                forall|j: int| 0 <= j < i ==> def.states@[j].0 != self.state,
            decreases n - i,
        {
            if def.states[i].0 == self.state {
                proof {
                    assert(state_index(def.states@, self.state, i as int));
                }
                return &def.states[i].1;
            }
            i = i + 1;
        }
        proof {
            let k = choose|k: int| 0 <= k < def.states@.len() && def.states@[k].0 == self.state;
            assert(def.states@[k].0 != self.state);
        }
        &def.states[0].1
    }
}

} // verus!

//! Reactions: what workshops, pawns and the map turn into what.
use vstd::prelude::*;
use crate::defs::ItemDefinitionId;
use crate::defs::parser::ConditionSetRef;

verus! {

/// Where a reaction happens.
#[derive(Debug, Clone, Copy, PartialEq, Eq, Hash, Structural)]
pub enum ReactionCategory {
    MapTransformation,
    WorkshopProduction,
    Construction,
    PawnAction,
}

/// What a reaction produces.
#[derive(Debug, Clone, Copy, PartialEq, Eq, Hash, Structural)]
pub enum ProductKind {
    Item(ItemDefinitionId),
}

/// The parameters of an effect of a reaction.
#[derive(Debug, Clone, Copy, PartialEq, Eq, Structural)]
pub enum EffectParameters {
    Todo,
}

/// A named effect of a reaction.
#[derive(Debug, Clone)]
pub struct ReactionEffect {
    pub name: String,
    pub parameters: Option<EffectParameters>,
}

impl ReactionEffect {
    /// An effect with an empty name and no parameters.
    pub fn default() -> (r: ReactionEffect)
        ensures
            r.name@ == Seq::<char>::empty(),
            r.parameters is None,
    {
        ReactionEffect { name: String::new(), parameters: None }
    }
}

/// The number of reagents a reaction takes when its definition gives none.
pub fn default_reagent_count() -> (r: usize)
    ensures
        r == 1,
{
    1
}

/// What a reaction takes: a thing meeting every chain of conditions, how
/// many of them, and the chance that they are used up.
#[derive(Debug, Clone, PartialEq)]
pub struct Reagent {
    pub conditions: Vec<ConditionSetRef>,
    pub consume_chance: u32,
    pub count: usize,
}

impl Reagent {
    /// A reagent without conditions, never used up, of count 0.
    pub fn default() -> (r: Reagent)
        ensures
            r.conditions@.len() == 0,
            r.consume_chance == 0,
            r.count == 0,
    {
        Reagent { conditions: Vec::new(), consume_chance: 0, count: 0 }
    }
}

} // verus!

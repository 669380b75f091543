//! Races and the attributes of their members.
use vstd::prelude::*;

verus! {

/// The attributes of a creature, body and mind.
#[derive(Debug, Copy, Clone, PartialEq, Eq, Hash, Structural)]
pub struct Attributes {
    pub strength: u16,
    pub agility: u16,
    pub toughness: u16,
    pub endurance: u16,
    pub immunity: u16,
    pub healing: u16,
    pub analytical: u16,
    pub focus: u16,
    pub willpower: u16,
    pub creativity: u16,
    pub intuition: u16,
    pub patience: u16,
    pub memory: u16,
    pub linguistic: u16,
    pub spatial: u16,
    pub kinesthetic: u16,
    pub empathy: u16,
    pub social: u16,
}

/// Attributes that all equal `v`.
pub open spec fn uniform(v: u16) -> Attributes {
    Attributes {
        strength: v,
        agility: v,
        toughness: v,
        endurance: v,
        immunity: v,
        healing: v,
        analytical: v,
        focus: v,
        willpower: v,
        creativity: v,
        intuition: v,
        patience: v,
        memory: v,
        linguistic: v,
        spatial: v,
        kinesthetic: v,
        empathy: v,
        social: v,
    }
}

impl Attributes {
    fn uniform(v: u16) -> (r: Attributes)
        ensures
            r == uniform(v),
    {
        Attributes {
            strength: v,
            agility: v,
            toughness: v,
            endurance: v,
            immunity: v,
            healing: v,
            analytical: v,
            focus: v,
            willpower: v,
            creativity: v,
            intuition: v,
            patience: v,
            memory: v,
            linguistic: v,
            spatial: v,
            kinesthetic: v,
            empathy: v,
            social: v,
        }
    }

    /// Every attribute at its base of 1000.
    pub fn default() -> (r: Attributes)
        ensures
            r == uniform(1000),
    {
        Attributes::uniform(1000)
    }

    /// Every deviation at 200.
    pub fn default_deviation() -> (r: Attributes)
        ensures
            r == uniform(200),
    {
        Attributes::uniform(200)
    }

    /// The default base with the default deviation.
    pub fn default_with_deviation() -> (r: RaceAttributes)
        ensures
            r.base == uniform(1000),
            r.deviation == uniform(200),
    {
        RaceAttributes { base: Attributes::default(), deviation: Attributes::default_deviation() }
    }
}

/// The attributes of a race: the mean of each and how far members deviate.
#[derive(Debug, Copy, Clone, Eq, PartialEq, Hash, Structural)]
pub struct RaceAttributes {
    pub base: Attributes,
    pub deviation: Attributes,
}

} // verus!

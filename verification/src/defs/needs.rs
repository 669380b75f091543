//! Needs of creatures and the nutrition that food provides for them.
use vstd::prelude::*;
use std::ops::Range;

verus! {

/// Where a food's nutrition comes from: its material, or a value of its own.
#[derive(Debug, Clone)]
pub enum ProvidesNutrition {
    FromMaterial,
    Value(Nutrition),
}

impl ProvidesNutrition {
    pub fn default() -> (r: ProvidesNutrition)
        ensures
            r is FromMaterial,
    {
        ProvidesNutrition::FromMaterial
    }
}

/// The calories and hydration a food provides, each as a range.
#[derive(Debug)]
pub struct Nutrition {
    pub calories: Range<i32>,
    pub hydration: Range<i32>,
}

impl Clone for Nutrition {
    fn clone(&self) -> (r: Nutrition)
        ensures
            r == *self,
    {
        Nutrition {
            calories: Range { start: self.calories.start, end: self.calories.end },
            hydration: Range { start: self.hydration.start, end: self.hydration.end },
        }
    }
}

impl Nutrition {
    /// No nutrition at all.
    pub fn default() -> (r: Nutrition)
        ensures
            r.calories.start == 0 && r.calories.end == 0,
            r.hydration.start == 0 && r.hydration.end == 0,
    {
        Nutrition { calories: Nutrition::default_calories(), hydration: Nutrition::default_hydration() }
    }

    pub fn default_calories() -> (r: Range<i32>)
        ensures
            r.start == 0 && r.end == 0,
    {
        Range { start: 0, end: 0 }
    }

    pub fn default_hydration() -> (r: Range<i32>)
        ensures
            r.start == 0 && r.end == 0,
    {
        Range { start: 0, end: 0 }
    }
}

/// The kinds of need a creature has.
#[derive(Debug, Clone, Copy, PartialEq, Eq, Hash, Structural)]
pub enum NeedKind {
    Calories,
    Hydration,
    Sleep,
}

/// How many kinds of need there are.
pub const NEEDKIND_COUNT: usize = 3;

impl NeedKind {
    /// The position of the kind in declaration order.
    pub open spec fn index(self) -> nat {
        match self {
            NeedKind::Calories => 0,
            NeedKind::Hydration => 1,
            NeedKind::Sleep => 2,
        }
    }

    pub fn as_usize(self) -> (r: usize)
        ensures
            r == self.index(),
            r < NEEDKIND_COUNT,
    {
        match self {
            NeedKind::Calories => 0,
            NeedKind::Hydration => 1,
            NeedKind::Sleep => 2,
        }
    }

    /// Different kinds sit at different positions.
    pub proof fn lemma_index_injective(a: NeedKind, b: NeedKind)
        ensures
            a.index() == b.index() <==> a == b,
    {
    }
}

/// The range a food provides for a need: the calories or the hydration
/// range, when its start is positive.
pub open spec fn spec_nutrition_for(kind: NeedKind, nutrition: Nutrition) -> Option<(i32, i32)> {
    let r = if kind == NeedKind::Calories { nutrition.calories } else { nutrition.hydration };
    if r.start > 0 {
        Some((r.start, r.end))
    } else {
        None
    }
}

/// The range `nutrition` provides for the need `kind`, if it provides any.
/// Sleep is met by no food.
pub fn nutrition_for(kind: NeedKind, nutrition: &Nutrition) -> (r: Option<Range<i32>>)
    requires
        kind != NeedKind::Sleep,
    ensures
        match r {
            Some(range) => spec_nutrition_for(kind, *nutrition) == Some((range.start, range.end)),
            None => spec_nutrition_for(kind, *nutrition) is None,
        },
{
    match kind {
        NeedKind::Calories => {
            if nutrition.calories.start > 0 {
                Some(Range { start: nutrition.calories.start, end: nutrition.calories.end })
            } else {
                None
            }
        },
        _ => {
            if nutrition.hydration.start > 0 {
                Some(Range { start: nutrition.hydration.start, end: nutrition.hydration.end })
            } else {
                None
            }
        },
    }
}

/// The nutrition a food provides for `kind`: its own value, or that of
/// its material's state; nothing where it comes from the material and no
/// material is given.
pub fn provided_nutrition(
    kind: NeedKind,
    provides: &ProvidesNutrition,
    material: Option<&Nutrition>,
) -> (r: Option<Range<i32>>)
    requires
        kind != NeedKind::Sleep,
    ensures
        match provides {
            ProvidesNutrition::Value(v) => match r {
                Some(range) => spec_nutrition_for(kind, *v) == Some((range.start, range.end)),
                None => spec_nutrition_for(kind, *v) is None,
            },
            ProvidesNutrition::FromMaterial => match material {
                Some(m) => match r {
                    Some(range) => spec_nutrition_for(kind, *m) == Some((range.start, range.end)),
                    None => spec_nutrition_for(kind, *m) is None,
                },
                None => r is None,
            },
        },
{
    match provides {
        ProvidesNutrition::FromMaterial => match material {
            Some(m) => nutrition_for(kind, m),
            None => None,
        },
        ProvidesNutrition::Value(v) => nutrition_for(kind, v),
    }
}

} // verus!

//! Builders of composite behavior nodes.
use vstd::prelude::*;
use std::sync::Arc;
use crate::bt::{BehaviorKind, BehaviorNode, BehaviorResult};

verus! {

pub fn not<C>(inner: Box<Arc<dyn BehaviorNode<C>>>) -> (r: BehaviorKind<C>)
    ensures
        r matches BehaviorKind::ReverseResult(c) && c == inner,
{
    BehaviorKind::ReverseResult(inner)
}

pub fn selector<C>(inner: Vec<Arc<dyn BehaviorNode<C>>>) -> (r: BehaviorKind<C>)
    ensures
        r matches BehaviorKind::Selector(ch) && ch == inner,
{
    BehaviorKind::Selector(inner)
}

pub fn sequence<C>(inner: Vec<Arc<dyn BehaviorNode<C>>>) -> (r: BehaviorKind<C>)
    ensures
        r matches BehaviorKind::Sequence(ch) && ch == inner,
{
    BehaviorKind::Sequence(inner)
}

pub fn all<C>(inner: Vec<Arc<dyn BehaviorNode<C>>>) -> (r: BehaviorKind<C>)
    ensures
        r matches BehaviorKind::All(ch) && ch == inner,
{
    BehaviorKind::All(inner)
}

pub fn try_until<C>(limit: usize, condition: BehaviorResult, node: Box<Arc<dyn BehaviorNode<C>>>) -> (r: BehaviorKind<C>)
    ensures
        r matches BehaviorKind::ForLoop { limit: l, condition: c, node: n } && l == limit && c == condition && n == node,
{
    BehaviorKind::ForLoop { limit, condition, node }
}

} // verus!

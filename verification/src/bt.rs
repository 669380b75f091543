//! Behavior trees: node results, composite nodes and the per-entity
//! bookkeeping that decides when a tree is run and when it is reset.
use vstd::prelude::*;
use std::sync::Arc;

pub mod make;

verus! {

/// Identifies a behavior tree in the behavior storage.
#[derive(Debug, Clone, Copy, PartialEq, Eq, Hash, Structural)]
pub struct BehaviorHandle(pub usize);

/// Which tree an entity runs: one picked by the utility scorer, one forced
/// on it by another behavior, or none.
#[derive(Debug, Clone, Copy, PartialEq, Eq, Structural)]
pub enum BehaviorRoot {
    Decision(BehaviorHandle),
    Forced(BehaviorHandle),
    Empty,
}

impl BehaviorRoot {
    pub open spec fn spec_handle(self) -> Option<BehaviorHandle> {
        match self {
            BehaviorRoot::Decision(h) => Some(h),
            BehaviorRoot::Forced(h) => Some(h),
            BehaviorRoot::Empty => None,
        }
    }

    pub fn default() -> (r: BehaviorRoot)
        ensures
            r == BehaviorRoot::Empty,
    {
        BehaviorRoot::Empty
    }

    pub fn is_none(&self) -> (r: bool)
        ensures
            r == (*self is Empty),
    {
        match self {
            BehaviorRoot::Empty => true,
            _ => false,
        }
    }

    pub fn is_forced(&self) -> (r: bool)
        ensures
            r == (*self is Forced),
    {
        match self {
            BehaviorRoot::Forced(_) => true,
            _ => false,
        }
    }

    pub fn handle(&self) -> (r: Option<BehaviorHandle>)
        ensures
            r == self.spec_handle(),
    {
        match *self {
            BehaviorRoot::Decision(handle) => Some(handle),
            BehaviorRoot::Forced(handle) => Some(handle),
            BehaviorRoot::Empty => None,
        }
    }
}

#[derive(Debug, Clone, Copy, PartialEq, Eq, Hash, Structural)]
pub enum BehaviorError {
    Todo,
}

#[derive(Debug, Clone, Copy, PartialEq, Eq, Hash, Structural)]
pub enum BehaviorResult {
    Running,
    Success,
    Failure,
    Error(BehaviorError),
}

impl BehaviorResult {
    pub fn default() -> (r: BehaviorResult)
        ensures
            r == BehaviorResult::Running,
    {
        BehaviorResult::Running
    }
}

/// The outcome of evaluating a node. `cancellable` tells whether a running
/// behavior may be replaced by another; `bail` aborts the whole tree.
/// Two statuses compare equal when their results are equal.
#[derive(Debug, Clone, Copy)]
pub struct BehaviorStatus {
    pub result: BehaviorResult,
    pub cancellable: bool,
    pub bail: bool,
}

pub open spec fn spec_running(cancellable: bool) -> BehaviorStatus {
    BehaviorStatus { result: BehaviorResult::Running, cancellable, bail: false }
}

pub open spec fn spec_bail() -> BehaviorStatus {
    BehaviorStatus { result: BehaviorResult::Failure, cancellable: false, bail: true }
}

pub open spec fn spec_failure() -> BehaviorStatus {
    BehaviorStatus { result: BehaviorResult::Failure, cancellable: true, bail: false }
}

pub open spec fn spec_success() -> BehaviorStatus {
    BehaviorStatus { result: BehaviorResult::Success, cancellable: true, bail: false }
}

impl BehaviorStatus {
    pub open spec fn spec_is_running(self) -> bool {
        self.result is Running
    }

    pub open spec fn spec_is_complete(self) -> bool {
        self.result is Success || self.result is Failure
    }

    pub open spec fn spec_is_cancellable(self) -> bool {
        if self.spec_is_running() {
            self.cancellable
        } else {
            true
        }
    }

    pub fn default() -> (r: BehaviorStatus)
        ensures
            r == (BehaviorStatus { result: BehaviorResult::Running, cancellable: false, bail: false }),
    {
        BehaviorStatus { result: BehaviorResult::Running, cancellable: false, bail: false }
    }

    pub fn running(cancellable: bool) -> (r: BehaviorStatus)
        ensures
            r == spec_running(cancellable),
    {
        BehaviorStatus { result: BehaviorResult::Running, cancellable, bail: false }
    }

    pub fn bail() -> (r: BehaviorStatus)
        ensures
            r == spec_bail(),
    {
        BehaviorStatus { result: BehaviorResult::Failure, cancellable: false, bail: true }
    }

    pub fn failure() -> (r: BehaviorStatus)
        ensures
            r == spec_failure(),
    {
        BehaviorStatus { result: BehaviorResult::Failure, cancellable: true, bail: false }
    }

    pub fn success() -> (r: BehaviorStatus)
        ensures
            r == spec_success(),
    {
        BehaviorStatus { result: BehaviorResult::Success, cancellable: true, bail: false }
    }

    pub fn is_running(self) -> (r: bool)
        ensures
            r == self.spec_is_running(),
    {
        self.result == BehaviorResult::Running
    }

    pub fn is_complete(self) -> (r: bool)
        ensures
            r == self.spec_is_complete(),
    {
        self.result == BehaviorResult::Success || self.result == BehaviorResult::Failure
    }

    pub fn is_cancellable(self) -> (r: bool)
        ensures
            r == self.spec_is_cancellable(),
    {
        if self.is_running() {
            self.cancellable
        } else {
            true
        }
    }
}

impl PartialEq for BehaviorStatus {
    fn eq(&self, rhv: &Self) -> (r: bool) {
        self.result == rhv.result
    }
}

impl vstd::std_specs::cmp::PartialEqSpecImpl for BehaviorStatus {
    open spec fn obeys_eq_spec() -> bool {
        true
    }

    open spec fn eq_spec(&self, rhv: &Self) -> bool {
        self.result == rhv.result
    }
}

/// A node of a behavior tree, evaluated against a context `C` (the game
/// state and the evaluating entity). Nodes report errors by panicking,
/// never through `BehaviorResult::Error`.
pub trait BehaviorNode<C> {
    /// Whether an evaluation of this node that starts on the context
    /// `before` may leave the context `after` and report `r`. A node that
    /// does not say so may leave any context and report any result; through
    /// a `dyn BehaviorNode` nothing is known of it but what `eval` ensures.
    open spec fn may_return(&self, before: C, after: C, r: BehaviorStatus) -> bool {
        true
    }

    fn eval(&self, ctx: &mut C) -> (r: BehaviorStatus)
        ensures
            self.may_return(*old(ctx), *final(ctx), r),
            !(r.result is Error);
}

/// The three composites that run their children in order.
#[derive(Debug, Clone, Copy, PartialEq, Eq, Structural)]
pub enum CompositeKind {
    Selector,
    Sequence,
    All,
}

/// Where a composite of `kind` stops after a child reports `res`, and what
/// it then returns; `None` when it goes on with the next child.
pub open spec fn composite_stop(kind: CompositeKind, res: BehaviorStatus) -> Option<BehaviorStatus> {
    if res.bail {
        Some(res)
    } else {
        match res.result {
            BehaviorResult::Running => Some(res),
            BehaviorResult::Success => if kind is Selector { Some(spec_success()) } else { None },
            BehaviorResult::Failure => if kind is Sequence { Some(spec_failure()) } else { None },
            BehaviorResult::Error(_) => None,
        }
    }
}

/// Where a composite of `kind` stops after a child reports `res`, and what
/// it then returns; `None` when it goes on with the next child.
pub fn composite_step(kind: CompositeKind, res: BehaviorStatus) -> (r: Option<BehaviorStatus>)
    ensures
        r == composite_stop(kind, res),
{
    if res.bail {
        return Some(res);
    }
    match res.result {
        BehaviorResult::Running => Some(res),
        BehaviorResult::Success => {
            if kind == CompositeKind::Selector {
                Some(BehaviorStatus::success())
            } else {
                None
            }
        },
        BehaviorResult::Failure => {
            if kind == CompositeKind::Sequence {
                Some(BehaviorStatus::failure())
            } else {
                None
            }
        },
        BehaviorResult::Error(_) => None,
    }
}

/// What a composite returns when every child went on.
pub open spec fn composite_default(kind: CompositeKind) -> BehaviorStatus {
    if kind is Selector {
        spec_failure()
    } else {
        spec_success()
    }
}

/// `rs` are the results of the children that a composite of `kind` over
/// `n` children evaluated, in order: all but the last went on, and the
/// last stopped it unless every child was run.
pub open spec fn composite_trace(kind: CompositeKind, rs: Seq<BehaviorStatus>, n: int) -> bool {
    &&& rs.len() <= n
    &&& forall|i: int| 0 <= i < rs.len() - 1 ==> (#[trigger] composite_stop(kind, rs[i])) is None
    &&& (rs.len() == n || (rs.len() > 0 && composite_stop(kind, rs.last()) is Some))
    &&& forall|i: int| 0 <= i < rs.len() ==> !(#[trigger] rs[i].result is Error)
}

/// What the composite returns after the children reported `rs`.
pub open spec fn composite_outcome(kind: CompositeKind, rs: Seq<BehaviorStatus>) -> BehaviorStatus {
    if rs.len() > 0 && composite_stop(kind, rs.last()) is Some {
        composite_stop(kind, rs.last()).unwrap()
    } else {
        composite_default(kind)
    }
}

/// The result of a child with success and failure swapped.
pub open spec fn spec_reverse(res: BehaviorStatus) -> BehaviorStatus {
    match res.result {
        BehaviorResult::Success => BehaviorStatus { result: BehaviorResult::Failure, ..res },
        BehaviorResult::Failure => BehaviorStatus { result: BehaviorResult::Success, ..res },
        _ => res,
    }
}

/// Reversing a result twice gives it back: a reverse node over a reverse
/// node reports what the inner child reported.
pub proof fn lemma_reverse_twice(res: BehaviorStatus)
    ensures
        spec_reverse(spec_reverse(res)) == res,
{
}

/// Whether a loop node evaluates its child again after the `k`th
/// evaluation (counted from 0) reported `r`.
pub open spec fn loop_continues(k: int, r: BehaviorStatus, limit: usize, condition: BehaviorResult) -> bool {
    !r.bail && r.result != condition && (k == 0 || k < limit)
}

/// `rs` are the results of the successive evaluations of a loop node's child.
pub open spec fn loop_trace(rs: Seq<BehaviorStatus>, limit: usize, condition: BehaviorResult) -> bool {
    &&& rs.len() >= 1
    &&& forall|k: int| 0 <= k < rs.len() - 1 ==> loop_continues(k, #[trigger] rs[k], limit, condition)
    &&& !loop_continues(rs.len() - 1, rs.last(), limit, condition)
    &&& forall|i: int| 0 <= i < rs.len() ==> !(#[trigger] rs[i].result is Error)
}

/// `rs` are what `children[0]`, `children[1]`, ... reported when evaluated
/// one after the other, the `i`th starting on the context `ctxs[i]` and
/// leaving `ctxs[i + 1]`; no other child ran.
pub open spec fn children_ran<C>(children: Seq<Arc<dyn BehaviorNode<C>>>, rs: Seq<BehaviorStatus>, ctxs: Seq<C>) -> bool {
    &&& rs.len() <= children.len()
    &&& ctxs.len() == rs.len() + 1
    &&& forall|i: int| #![trigger rs[i]] 0 <= i < rs.len() ==> children[i].may_return(ctxs[i], ctxs[i + 1], rs[i])
}

/// `rs` are what `node` reported when evaluated again and again, the `i`th
/// time starting on the context `ctxs[i]` and leaving `ctxs[i + 1]`.
pub open spec fn node_ran<C>(node: &Box<Arc<dyn BehaviorNode<C>>>, rs: Seq<BehaviorStatus>, ctxs: Seq<C>) -> bool {
    &&& ctxs.len() == rs.len() + 1
    &&& forall|i: int| #![trigger rs[i]] 0 <= i < rs.len() ==> node.may_return(ctxs[i], ctxs[i + 1], rs[i])
}

/// A composite of `kind` over `children`, started on `before`, may leave
/// `after` and report `r`: its children ran in order from the first, each
/// on the context the one before left, until one stopped it or all ran,
/// and `r` is what the composite makes of their results.
pub open spec fn composite_may_return<C>(kind: CompositeKind, children: Seq<Arc<dyn BehaviorNode<C>>>, before: C,
    after: C, r: BehaviorStatus) -> bool
{
    exists|rs: Seq<BehaviorStatus>, ctxs: Seq<C>| {
        &&& composite_trace(kind, rs, children.len() as int)
        &&& children_ran(children, rs, ctxs)
        &&& ctxs[0] == before
        &&& ctxs.last() == after
        &&& r == composite_outcome(kind, rs)
    }
}

/// A loop node over `node`, started on `before`, may leave `after` and
/// report `r`: the child ran once and then again as `loop_trace` allows,
/// each time on the context the time before left, and `r` is its last result.
pub open spec fn loop_may_return<C>(limit: usize, condition: BehaviorResult, node: &Box<Arc<dyn BehaviorNode<C>>>, before: C,
    after: C, r: BehaviorStatus) -> bool
{
    exists|rs: Seq<BehaviorStatus>, ctxs: Seq<C>| {
        &&& loop_trace(rs, limit, condition)
        &&& node_ran(node, rs, ctxs)
        &&& ctxs[0] == before
        &&& ctxs.last() == after
        &&& r == rs.last()
    }
}

/// A composite node over other nodes.
#[verifier::reject_recursive_types(C)]
pub enum BehaviorKind<C> {
    /// Runs children until one succeeds or keeps running; fails when none does.
    Selector(Vec<Arc<dyn BehaviorNode<C>>>),
    /// Runs children until one fails or keeps running; succeeds when all do.
    Sequence(Vec<Arc<dyn BehaviorNode<C>>>),
    /// Swaps the success and failure of its child.
    ReverseResult(Box<Arc<dyn BehaviorNode<C>>>),
    /// Runs children until one keeps running; succeeds otherwise.
    All(Vec<Arc<dyn BehaviorNode<C>>>),
    /// Runs its child until it reports `condition`, at most `limit` more times.
    ForLoop { limit: usize, condition: BehaviorResult, node: Box<Arc<dyn BehaviorNode<C>>> },

}

/// Runs `children` in order as a composite of `kind` and returns what the
/// composite reports.
fn eval_composite<C>(kind: CompositeKind, children: &Vec<Arc<dyn BehaviorNode<C>>>, ctx: &mut C) -> (r: BehaviorStatus)
    ensures
        composite_may_return(kind, children@, *old(ctx), *final(ctx), r),
{
    let ghost mut rs: Seq<BehaviorStatus> = Seq::empty();
    let ghost mut ctxs: Seq<C> = seq![*ctx];
    let mut i: usize = 0;
    while i < children.len()
        invariant
            i <= children.len(),
            rs.len() == i,
            ctxs[0] == *old(ctx),
            ctxs.last() == *ctx,
            children_ran(children@, rs, ctxs),
            forall|j: int| 0 <= j < rs.len() ==> (#[trigger] composite_stop(kind, rs[j])) is None,
            forall|j: int| 0 <= j < rs.len() ==> !(#[trigger] rs[j].result is Error),
        decreases children.len() - i,
    {
        let res = children[i].eval(ctx);
        proof {
            let ghost prev = ctxs;
            rs = rs.push(res);
            ctxs = ctxs.push(*ctx);
            assert forall|j: int| #![trigger rs[j]] 0 <= j < rs.len() implies children@[j].may_return(ctxs[j], ctxs[j + 1], rs[j]) by {
                if j < rs.len() - 1 {
                    assert(rs[j] == rs.drop_last()[j]);
                }
            }
        }
        match composite_step(kind, res) {
            Some(stop) => {
                proof {
                    assert(composite_trace(kind, rs, children.len() as int));
                    assert(children_ran(children@, rs, ctxs));
                    assert(stop == composite_outcome(kind, rs));
                }
                return stop;
            },
            None => {},
        }
        i = i + 1;
    }
    proof {
        if rs.len() > 0 {
            assert(composite_stop(kind, rs[rs.len() - 1]) is None);
        }
    }
    if kind == CompositeKind::Selector {
        BehaviorStatus::failure()
    } else {
        BehaviorStatus::success()
    }
}

/// Evaluates a loop node: the child runs once, then again while its result
/// differs from `condition` and it has run at most `limit` extra times.
fn eval_loop<C>(limit: usize, condition: BehaviorResult, node: &Box<Arc<dyn BehaviorNode<C>>>, ctx: &mut C) -> (r: BehaviorStatus)
    ensures
        loop_may_return(limit, condition, node, *old(ctx), *final(ctx), r),
{
    let mut n: usize = 0;
    let mut result = node.eval(ctx);
    let ghost mut rs: Seq<BehaviorStatus> = seq![result];
    let ghost mut ctxs: Seq<C> = seq![*old(ctx), *ctx];
    if result.bail {
        proof {
            assert(loop_trace(rs, limit, condition));
            assert(node_ran(node, rs, ctxs));
        }
        return result;
    }
    while result.result != condition
        invariant
            n <= limit || n == 0,
            rs.len() == n + 1,
            rs.last() == result,
            ctxs[0] == *old(ctx),
            ctxs.last() == *ctx,
            node_ran(node, rs, ctxs),
            !result.bail,
            forall|k: int| 0 <= k < rs.len() - 1 ==> loop_continues(k, #[trigger] rs[k], limit, condition),
            forall|i: int| 0 <= i < rs.len() ==> !(#[trigger] rs[i].result is Error),
            n == 0 || n < limit,
        decreases limit + 1 - n,
    {
        proof {
            assert(loop_continues(n as int, rs.last(), limit, condition));
        }
        result = node.eval(ctx);
        proof {
            rs = rs.push(result);
            ctxs = ctxs.push(*ctx);
            assert forall|j: int| #![trigger rs[j]] 0 <= j < rs.len() implies node.may_return(ctxs[j], ctxs[j + 1], rs[j]) by {
                if j < rs.len() - 1 {
                    assert(rs[j] == rs.drop_last()[j]);
                }
            }
        }
        if result.bail {
            proof {
                assert(loop_trace(rs, limit, condition));
                assert(node_ran(node, rs, ctxs));
            }
            return result;
        }
        n = n + 1;
        if n >= limit {
            proof {
                assert(loop_trace(rs, limit, condition));
                assert(node_ran(node, rs, ctxs));
            }
            return result;
        }
    }
    proof {
        assert(loop_trace(rs, limit, condition));
        assert(node_ran(node, rs, ctxs));
    }
    result
}

impl<C> BehaviorNode<C> for BehaviorKind<C> {
    /// Selector, sequence and all nodes run their children as
    /// `composite_may_return` says; a reverse node reports its child's
    /// result with success and failure swapped; a loop node runs its child
    /// as `loop_may_return` says.
    open spec fn may_return(&self, before: C, after: C, r: BehaviorStatus) -> bool {
        match self {
            BehaviorKind::Selector(ch) => composite_may_return(CompositeKind::Selector, ch@, before, after, r),
            BehaviorKind::Sequence(ch) => composite_may_return(CompositeKind::Sequence, ch@, before, after, r),
            BehaviorKind::All(ch) => composite_may_return(CompositeKind::All, ch@, before, after, r),
            BehaviorKind::ReverseResult(child) => exists|c: BehaviorStatus|
                (**child).may_return(before, after, c) && !(c.result is Error) && r == spec_reverse(c),
            BehaviorKind::ForLoop { limit, condition, node } =>
                loop_may_return(*limit, *condition, node, before, after, r),
        }
    }

    fn eval(&self, ctx: &mut C) -> (r: BehaviorStatus) {
        match self {
            BehaviorKind::ReverseResult(child) => {
                let mut res = child.eval(ctx);
                let ghost c = res;
                match res.result {
                    BehaviorResult::Running => {},
                    BehaviorResult::Success => res.result = BehaviorResult::Failure,
                    BehaviorResult::Failure => res.result = BehaviorResult::Success,
                    BehaviorResult::Error(_) => {},
                }
                proof {
                    assert(res == spec_reverse(c));
                }
                res
            },
            BehaviorKind::Selector(children) => eval_composite(CompositeKind::Selector, children, ctx),
            BehaviorKind::Sequence(children) => eval_composite(CompositeKind::Sequence, children, ctx),
            BehaviorKind::All(children) => eval_composite(CompositeKind::All, children, ctx),
            BehaviorKind::ForLoop { limit, condition, node } => eval_loop(*limit, *condition, node, ctx),
        }
    }
}

/// What a sequence over `n` children reports after the children that ran
/// reported `rs`: every child before the last succeeded without bailing;
/// the last one that ran is the first that bailed or did not succeed, and
/// the sequence reports it when it bailed or is running and fails when it
/// failed; when none was, all `n` ran and the sequence succeeds.
pub open spec fn sequence_law(rs: Seq<BehaviorStatus>, n: int, r: BehaviorStatus) -> bool {
    &&& rs.len() <= n
    &&& forall|i: int| 0 <= i < rs.len() - 1 ==> !(#[trigger] rs[i]).bail && rs[i].result is Success
    &&& if rs.len() > 0 && (rs.last().bail || !(rs.last().result is Success)) {
        r == if rs.last().bail || rs.last().result is Running { rs.last() } else { spec_failure() }
    } else {
        rs.len() == n && r == spec_success()
    }
}

/// What a selector over `n` children reports after the children that ran
/// reported `rs`: every child before the last failed without bailing; the
/// last one that ran is the first that bailed or did not fail, and the
/// selector reports it when it bailed or is running and succeeds when it
/// succeeded; when none was, all `n` ran and the selector fails.
pub open spec fn selector_law(rs: Seq<BehaviorStatus>, n: int, r: BehaviorStatus) -> bool {
    &&& rs.len() <= n
    &&& forall|i: int| 0 <= i < rs.len() - 1 ==> !(#[trigger] rs[i]).bail && rs[i].result is Failure
    &&& if rs.len() > 0 && (rs.last().bail || !(rs.last().result is Failure)) {
        r == if rs.last().bail || rs.last().result is Running { rs.last() } else { spec_success() }
    } else {
        rs.len() == n && r == spec_failure()
    }
}

/// What an all node over `n` children reports after the children that ran
/// reported `rs`: every child before the last completed without bailing;
/// the last one that ran is the first that bailed or is running, and the
/// node reports it; when none was, all `n` ran and the node succeeds.
pub open spec fn all_law(rs: Seq<BehaviorStatus>, n: int, r: BehaviorStatus) -> bool {
    &&& rs.len() <= n
    &&& forall|i: int| 0 <= i < rs.len() - 1 ==> !(#[trigger] rs[i]).bail && !(rs[i].result is Running)
    &&& if rs.len() > 0 && (rs.last().bail || rs.last().result is Running) {
        r == rs.last()
    } else {
        rs.len() == n && r == spec_success()
    }
}

/// What a loop node reports after its child reported `rs`: the child ran
/// at least once and at most `1 + max(limit, 1)` times; every run before
/// the last neither bailed nor reported `condition`; the last bailed,
/// reported `condition`, or was the last run allowed; and the node reports
/// the last result.
pub open spec fn loop_law(rs: Seq<BehaviorStatus>, limit: usize, condition: BehaviorResult, r: BehaviorStatus) -> bool {
    let most = if limit >= 1 { limit as int } else { 1 };
    &&& 1 <= rs.len() <= 1 + most
    &&& forall|i: int| 0 <= i < rs.len() - 1 ==> !(#[trigger] rs[i]).bail && rs[i].result != condition
    &&& rs.last().bail || rs.last().result == condition || rs.len() == 1 + most
    &&& r == rs.last()
}

/// A sequence runs its children in order, from the first, each on the
/// context the one before left, and stops at the first that bails or does
/// not succeed, as `sequence_law` says.
pub proof fn lemma_sequence_law<C>(children: Vec<Arc<dyn BehaviorNode<C>>>, before: C, after: C, r: BehaviorStatus)
    requires
        BehaviorKind::Sequence(children).may_return(before, after, r),
    ensures
        exists|rs: Seq<BehaviorStatus>, ctxs: Seq<C>| {
            &&& children_ran(children@, rs, ctxs)
            &&& ctxs[0] == before
            &&& ctxs.last() == after
            &&& sequence_law(rs, children.len() as int, r)
        },
{
    let (rs, ctxs) = choose|rs: Seq<BehaviorStatus>, ctxs: Seq<C>| {
        &&& composite_trace(CompositeKind::Sequence, rs, children@.len() as int)
        &&& children_ran(children@, rs, ctxs)
        &&& ctxs[0] == before
        &&& ctxs.last() == after
        &&& r == composite_outcome(CompositeKind::Sequence, rs)
    };
    assert forall|i: int| 0 <= i < rs.len() - 1 implies !(#[trigger] rs[i]).bail && rs[i].result is Success by {
        assert(composite_stop(CompositeKind::Sequence, rs[i]) is None);
    }
    assert(sequence_law(rs, children.len() as int, r));
}

/// A selector runs its children in order, from the first, each on the
/// context the one before left, and stops at the first that bails or does
/// not fail, as `selector_law` says.
pub proof fn lemma_selector_law<C>(children: Vec<Arc<dyn BehaviorNode<C>>>, before: C, after: C, r: BehaviorStatus)
    requires
        BehaviorKind::Selector(children).may_return(before, after, r),
    ensures
        exists|rs: Seq<BehaviorStatus>, ctxs: Seq<C>| {
            &&& children_ran(children@, rs, ctxs)
            &&& ctxs[0] == before
            &&& ctxs.last() == after
            &&& selector_law(rs, children.len() as int, r)
        },
{
    let (rs, ctxs) = choose|rs: Seq<BehaviorStatus>, ctxs: Seq<C>| {
        &&& composite_trace(CompositeKind::Selector, rs, children@.len() as int)
        &&& children_ran(children@, rs, ctxs)
        &&& ctxs[0] == before
        &&& ctxs.last() == after
        &&& r == composite_outcome(CompositeKind::Selector, rs)
    };
    assert forall|i: int| 0 <= i < rs.len() - 1 implies !(#[trigger] rs[i]).bail && rs[i].result is Failure by {
        assert(composite_stop(CompositeKind::Selector, rs[i]) is None);
    }
    assert(selector_law(rs, children.len() as int, r));
}

/// An all node runs its children in order, from the first, each on the
/// context the one before left, and stops at the first that bails or is
/// running, as `all_law` says.
pub proof fn lemma_all_law<C>(children: Vec<Arc<dyn BehaviorNode<C>>>, before: C, after: C, r: BehaviorStatus)
    requires
        BehaviorKind::All(children).may_return(before, after, r),
    ensures
        exists|rs: Seq<BehaviorStatus>, ctxs: Seq<C>| {
            &&& children_ran(children@, rs, ctxs)
            &&& ctxs[0] == before
            &&& ctxs.last() == after
            &&& all_law(rs, children.len() as int, r)
        },
{
    let (rs, ctxs) = choose|rs: Seq<BehaviorStatus>, ctxs: Seq<C>| {
        &&& composite_trace(CompositeKind::All, rs, children@.len() as int)
        &&& children_ran(children@, rs, ctxs)
        &&& ctxs[0] == before
        &&& ctxs.last() == after
        &&& r == composite_outcome(CompositeKind::All, rs)
    };
    assert forall|i: int| 0 <= i < rs.len() - 1 implies !(#[trigger] rs[i]).bail && !(rs[i].result is Running) by {
        assert(composite_stop(CompositeKind::All, rs[i]) is None);
    }
    assert(all_law(rs, children.len() as int, r));
}

/// A reverse node runs its child once, on the node's context, and reports
/// the child's result with success and failure swapped and running kept,
/// and with the child's `cancellable` and `bail`.
pub proof fn lemma_reverse_law<C>(child: Box<Arc<dyn BehaviorNode<C>>>, before: C, after: C, r: BehaviorStatus)
    requires
        BehaviorKind::ReverseResult(child).may_return(before, after, r),
    ensures
        exists|c: BehaviorStatus| {
            &&& (**child).may_return(before, after, c)
            &&& !(c.result is Error)
            &&& c.result is Success ==> r.result is Failure
            &&& c.result is Failure ==> r.result is Success
            &&& c.result is Running ==> r.result is Running
            &&& r.cancellable == c.cancellable
            &&& r.bail == c.bail
        },
{
}

/// A loop node runs its child one or more times, each on the context the
/// run before left, as `loop_law` says.
pub proof fn lemma_loop_law<C>(limit: usize, condition: BehaviorResult, node: Box<Arc<dyn BehaviorNode<C>>>, before: C,
    after: C, r: BehaviorStatus)
    requires
        (BehaviorKind::ForLoop { limit, condition, node }).may_return(before, after, r),
    ensures
        exists|rs: Seq<BehaviorStatus>, ctxs: Seq<C>| {
            &&& node_ran(&node, rs, ctxs)
            &&& ctxs[0] == before
            &&& ctxs.last() == after
            &&& loop_law(rs, limit, condition, r)
        },
{
    let (rs, ctxs) = choose|rs: Seq<BehaviorStatus>, ctxs: Seq<C>| {
        &&& loop_trace(rs, limit, condition)
        &&& node_ran(&node, rs, ctxs)
        &&& ctxs[0] == before
        &&& ctxs.last() == after
        &&& r == rs.last()
    };
    let n = rs.len() - 1;
    if n >= 1 {
        assert(loop_continues(n - 1, rs[n - 1], limit, condition));
    }
    assert(!loop_continues(n, rs.last(), limit, condition));
    assert forall|i: int| 0 <= i < rs.len() - 1 implies !(#[trigger] rs[i]).bail && rs[i].result != condition by {
        assert(loop_continues(i, rs[i], limit, condition));
    }
    assert(loop_law(rs, limit, condition, r));
}

/// The behavior tree state of an entity.
#[derive(Debug, Clone, Copy)]
pub struct BehaviorTreeComponent {
    pub root: BehaviorRoot,
    pub last_root: BehaviorRoot,
    pub last_status: BehaviorStatus,
    pub last_frame: u64,
}

/// What the behavior system must do besides updating the tree after an
/// evaluation: clear the entity's blackboard, and cancel its movement.
#[derive(Debug, Clone, Copy, PartialEq, Eq, Structural)]
pub struct TreeEffects {
    pub clear_blackboard: bool,
    pub clear_movement: bool,
}

impl BehaviorTreeComponent {
    pub fn default() -> (r: BehaviorTreeComponent)
        ensures
            r.root == BehaviorRoot::Empty,
            r.last_root == BehaviorRoot::Empty,
            r.last_status == spec_success(),
            r.last_frame == 0,
    {
        BehaviorTreeComponent {
            root: BehaviorRoot::Empty,
            last_root: BehaviorRoot::Empty,
            last_status: BehaviorStatus::success(),
            last_frame: 0,
        }
    }

    /// Starts this frame's run of the tree: returns the tree to evaluate
    /// when the root was already seen last frame. A root that is new this
    /// frame was already run once by the utility scorer, so it is only
    /// remembered.
    pub fn begin_frame(&mut self) -> (r: Option<BehaviorHandle>)
        ensures
            old(self).root.spec_handle() is Some && old(self).root == old(self).last_root
                ==> r == old(self).root.spec_handle() && *final(self) == *old(self),
            old(self).root.spec_handle() is Some && old(self).root != old(self).last_root
                ==> r is None && *final(self) == (BehaviorTreeComponent { last_root: old(self).root, ..*old(self) }),
            old(self).root.spec_handle() is None ==> r is None && *final(self) == *old(self),
    {
        if let Some(handle) = self.root.handle() {
            if self.root == self.last_root {
                Some(handle)
            } else {
                self.last_root = self.root;
                None
            }
        } else {
            None
        }
    }

    /// Records the status of this frame's evaluation: a complete or bailed
    /// tree is reset, and a bail also cancels the entity's movement.
    pub fn finish_frame(&mut self, status: BehaviorStatus) -> (r: TreeEffects)
        ensures
            final(self).last_status == status,
            final(self).last_root == old(self).last_root,
            final(self).last_frame == old(self).last_frame,
            final(self).root == (if status.spec_is_complete() || status.bail { BehaviorRoot::Empty } else { old(self).root }),
            r.clear_blackboard == (status.spec_is_complete() || status.bail),
            r.clear_movement == status.bail,
    {
        self.last_status = status;
        let mut effects = TreeEffects { clear_blackboard: false, clear_movement: false };
        if status.is_complete() {
            self.root = BehaviorRoot::Empty;
            effects.clear_blackboard = true;
        }
        if status.bail {
            self.root = BehaviorRoot::Empty;
            effects.clear_blackboard = true;
            effects.clear_movement = true;
        }
        effects
    }
}

/// Runs one frame of an entity's behavior tree against the trees in
/// `storage`, indexed by handle.
pub fn run_tree<C>(tree: &mut BehaviorTreeComponent, storage: &Vec<Arc<dyn BehaviorNode<C>>>, ctx: &mut C)
    -> (r: TreeEffects)
    requires
        old(tree).root.spec_handle() matches Some(h) ==> h.0 < storage.len(),
    ensures
        old(tree).root.spec_handle() is None ==> *final(tree) == *old(tree) && r == (TreeEffects { clear_blackboard: false, clear_movement: false }),
        old(tree).root.spec_handle() is Some && old(tree).root != old(tree).last_root ==>
            *final(tree) == (BehaviorTreeComponent { last_root: old(tree).root, ..*old(tree) })
            && r == (TreeEffects { clear_blackboard: false, clear_movement: false }),
        old(tree).root.spec_handle() is Some && old(tree).root == old(tree).last_root ==> {
            let status = final(tree).last_status;
            &&& !(status.result is Error)
            &&& final(tree).last_root == old(tree).last_root
            &&& final(tree).last_frame == old(tree).last_frame
            &&& final(tree).root == (if status.spec_is_complete() || status.bail { BehaviorRoot::Empty } else { old(tree).root })
            &&& r.clear_blackboard == (status.spec_is_complete() || status.bail)
            &&& r.clear_movement == status.bail
        },
{
    match tree.begin_frame() {
        Some(handle) => {
            let status = storage[handle.0].eval(ctx);
            tree.finish_frame(status)
        },
        None => TreeEffects { clear_blackboard: false, clear_movement: false },
    }
}

/// Whether the utility scorer may pick a new behavior for a tree: when it
/// runs none, or runs a cancellable one that was not forced on it.
pub fn should_pick(root: BehaviorRoot, last_status: BehaviorStatus) -> (r: bool)
    ensures
        r == ((!(root is Empty) && last_status.spec_is_cancellable() && !(root is Forced)) || root is Empty),
{
    (!root.is_none() && last_status.is_cancellable() && !root.is_forced()) || root.is_none()
}

/// Goes through the candidate decisions `order` (indices into `behaviors`,
/// best score first) and starts the first whose behavior keeps running
/// when tried. It stops at the decision whose behavior already runs, and
/// at one without a behavior. Returns the index of the current decision.
pub fn pick_decision<C>(
    order: &Vec<usize>,
    behaviors: &Vec<Option<BehaviorHandle>>,
    current: usize,
    tree: &mut BehaviorTreeComponent,
    storage: &Vec<Arc<dyn BehaviorNode<C>>>,
    ctx: &mut C,
) -> (r: usize)
    requires
        forall|j: int| 0 <= j < order.len() ==> #[trigger] order[j] < behaviors.len(),
        forall|i: int| 0 <= i < behaviors.len() ==> (#[trigger] behaviors[i] matches Some(h) ==> h.0 < storage.len()),
    ensures
        exists|rs: Seq<BehaviorStatus>| {
            &&& rs.len() <= order.len()
            &&& forall|j: int| 0 <= j < rs.len() ==> {
                let c = #[trigger] behaviors[order[j] as int];
                c is Some && c != old(tree).root.spec_handle()
            }
            &&& forall|j: int| 0 <= j < rs.len() - 1 ==> !(#[trigger] rs[j].result is Running)
            &&& if rs.len() > 0 && rs.last().result is Running {
                &&& r == order[rs.len() - 1]
                &&& *final(tree) == (BehaviorTreeComponent {
                        root: BehaviorRoot::Decision(behaviors[r as int].unwrap()), ..*old(tree) })
            } else {
                &&& r == current
                &&& *final(tree) == *old(tree)
                &&& (rs.len() == order.len() || {
                        let c = behaviors[order[rs.len() as int] as int];
                        c is None || c == old(tree).root.spec_handle()
                    })
            }
        },
{
    let ghost mut rs: Seq<BehaviorStatus> = Seq::empty();
    let ghost root_handle = tree.root.spec_handle();
    let mut i: usize = 0;
    while i < order.len()
        invariant
            i <= order.len(),
            rs.len() == i,
            *tree == *old(tree),
            root_handle == old(tree).root.spec_handle(),
            forall|j: int| 0 <= j < order.len() ==> #[trigger] order[j] < behaviors.len(),
            forall|k: int| 0 <= k < behaviors.len() ==> (#[trigger] behaviors[k] matches Some(h) ==> h.0 < storage.len()),
            forall|j: int| 0 <= j < rs.len() ==> {
                let c = #[trigger] behaviors[order[j] as int];
                c is Some && c != root_handle
            },
            forall|j: int| 0 <= j < rs.len() ==> !(#[trigger] rs[j].result is Running),
        decreases order.len() - i,
    {
        let n = order[i];
        let choice = behaviors[n];
        if choice == tree.root.handle() {
            proof {
                if rs.len() > 0 {
                    assert(!(rs[rs.len() - 1].result is Running));
                }
            }
            return current;
        }
        match choice {
            Some(handle) => {
                let result = storage[handle.0].eval(ctx);
                proof {
                    rs = rs.push(result);
                }
                if result == BehaviorStatus::running(false) {
                    tree.root = BehaviorRoot::Decision(handle);
                    proof {
                        assert(rs.last().result is Running);
                        assert(behaviors[n as int].unwrap() == handle);
                    }
                    return n;
                }
            },
            None => {
                proof {
                    if rs.len() > 0 {
                        assert(!(rs[rs.len() - 1].result is Running));
                    }
                }
                return current;
            },
        }
        i = i + 1;
    }
    proof {
        if rs.len() > 0 {
            assert(!(rs[rs.len() - 1].result is Running));
        }
    }
    current
}

} // verus!

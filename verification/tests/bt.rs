use std::sync::Arc;

use rl_core::bt::make::{all, not, selector, sequence, try_until};
use rl_core::bt::{
    composite_step, run_tree, should_pick, BehaviorHandle, CompositeKind, BehaviorNode, BehaviorResult, BehaviorRoot,
    BehaviorStatus, BehaviorTreeComponent, TreeEffects,
};

/// A node that records its id in the context and reports a fixed status.
struct Fixed {
    id: u32,
    status: BehaviorStatus,
}

impl BehaviorNode<Vec<u32>> for Fixed {
    fn eval(&self, ctx: &mut Vec<u32>) -> BehaviorStatus {
        ctx.push(self.id);
        self.status
    }
}

fn node(id: u32, status: BehaviorStatus) -> Arc<dyn BehaviorNode<Vec<u32>>> {
    Arc::new(Fixed { id, status })
}

fn same(a: BehaviorStatus, b: BehaviorStatus) -> bool {
    a.result == b.result && a.cancellable == b.cancellable && a.bail == b.bail
}

#[test]
fn selector_stops_at_first_success() {
    let tree = selector(vec![
        node(1, BehaviorStatus::failure()),
        node(2, BehaviorStatus::success()),
        node(3, BehaviorStatus::failure()),
    ]);
    let mut ctx = Vec::new();
    let r = tree.eval(&mut ctx);
    assert!(same(r, BehaviorStatus::success()));
    assert_eq!(ctx, vec![1, 2]);
}

#[test]
fn selector_fails_when_no_child_succeeds() {
    let tree = selector(vec![node(1, BehaviorStatus::failure()), node(2, BehaviorStatus::failure())]);
    let mut ctx = Vec::new();
    let r = tree.eval(&mut ctx);
    assert!(same(r, BehaviorStatus::failure()));
    assert_eq!(ctx, vec![1, 2]);
}

#[test]
fn sequence_stops_at_first_failure_or_running() {
    let tree = sequence(vec![
        node(1, BehaviorStatus::success()),
        node(2, BehaviorStatus::running(true)),
        node(3, BehaviorStatus::failure()),
    ]);
    let mut ctx = Vec::new();
    let r = tree.eval(&mut ctx);
    assert!(same(r, BehaviorStatus::running(true)));
    assert_eq!(ctx, vec![1, 2]);

    let tree = sequence(vec![node(1, BehaviorStatus::success()), node(2, BehaviorStatus::success())]);
    let mut ctx = Vec::new();
    assert!(same(tree.eval(&mut ctx), BehaviorStatus::success()));
    assert_eq!(ctx, vec![1, 2]);
}

#[test]
fn all_runs_every_child_and_bail_stops_it() {
    let tree = all(vec![
        node(1, BehaviorStatus::failure()),
        node(2, BehaviorStatus::success()),
        node(3, BehaviorStatus::failure()),
    ]);
    let mut ctx = Vec::new();
    assert!(same(tree.eval(&mut ctx), BehaviorStatus::success()));
    assert_eq!(ctx, vec![1, 2, 3]);

    let tree = all(vec![node(1, BehaviorStatus::bail()), node(2, BehaviorStatus::success())]);
    let mut ctx = Vec::new();
    assert!(same(tree.eval(&mut ctx), BehaviorStatus::bail()));
    assert_eq!(ctx, vec![1]);
}

#[test]
fn not_swaps_success_and_failure_and_twice_gives_it_back() {
    let inner = node(7, BehaviorStatus::success());
    let once = not(Box::new(inner.clone()));
    let mut ctx = Vec::new();
    assert!(same(once.eval(&mut ctx), BehaviorStatus::failure()));

    let twice = not(Box::new(Arc::new(not(Box::new(inner))) as Arc<dyn BehaviorNode<Vec<u32>>>));
    let mut ctx = Vec::new();
    assert!(same(twice.eval(&mut ctx), BehaviorStatus::success()));
    assert_eq!(ctx, vec![7]);

    let running = not(Box::new(node(8, BehaviorStatus::running(false))));
    let mut ctx = Vec::new();
    assert!(same(running.eval(&mut ctx), BehaviorStatus::running(false)));
}

#[test]
fn try_until_repeats_up_to_the_limit() {
    let tree = try_until(3, BehaviorResult::Success, Box::new(node(1, BehaviorStatus::failure())));
    let mut ctx = Vec::new();
    assert!(same(tree.eval(&mut ctx), BehaviorStatus::failure()));
    assert_eq!(ctx.len(), 4);

    let tree = try_until(0, BehaviorResult::Success, Box::new(node(1, BehaviorStatus::failure())));
    let mut ctx = Vec::new();
    tree.eval(&mut ctx);
    assert_eq!(ctx.len(), 2);

    let tree = try_until(5, BehaviorResult::Success, Box::new(node(1, BehaviorStatus::success())));
    let mut ctx = Vec::new();
    assert!(same(tree.eval(&mut ctx), BehaviorStatus::success()));
    assert_eq!(ctx.len(), 1);

    let tree = try_until(5, BehaviorResult::Success, Box::new(node(1, BehaviorStatus::bail())));
    let mut ctx = Vec::new();
    assert!(same(tree.eval(&mut ctx), BehaviorStatus::bail()));
    assert_eq!(ctx.len(), 1);
}

#[test]
fn run_tree_waits_one_frame_then_resets_when_complete() {
    let storage: Vec<Arc<dyn BehaviorNode<Vec<u32>>>> = vec![node(4, BehaviorStatus::success())];
    let mut tree = BehaviorTreeComponent::default();
    tree.root = BehaviorRoot::Decision(BehaviorHandle(0));
    let mut ctx = Vec::new();

    let none = TreeEffects { clear_blackboard: false, clear_movement: false };
    assert_eq!(run_tree(&mut tree, &storage, &mut ctx), none);
    assert_eq!(tree.last_root, BehaviorRoot::Decision(BehaviorHandle(0)));
    assert!(ctx.is_empty());

    let effects = run_tree(&mut tree, &storage, &mut ctx);
    assert_eq!(effects, TreeEffects { clear_blackboard: true, clear_movement: false });
    assert_eq!(tree.root, BehaviorRoot::Empty);
    assert_eq!(ctx, vec![4]);
}

#[test]
fn run_tree_bail_cancels_movement() {
    let storage: Vec<Arc<dyn BehaviorNode<Vec<u32>>>> = vec![node(4, BehaviorStatus::bail())];
    let mut tree = BehaviorTreeComponent::default();
    tree.root = BehaviorRoot::Forced(BehaviorHandle(0));
    tree.last_root = tree.root;
    let mut ctx = Vec::new();
    let effects = run_tree(&mut tree, &storage, &mut ctx);
    assert_eq!(effects, TreeEffects { clear_blackboard: true, clear_movement: true });
    assert_eq!(tree.root, BehaviorRoot::Empty);
}

#[test]
fn should_pick_cases() {
    assert!(should_pick(BehaviorRoot::Empty, BehaviorStatus::running(false)));
    assert!(should_pick(BehaviorRoot::Decision(BehaviorHandle(1)), BehaviorStatus::running(true)));
    assert!(!should_pick(BehaviorRoot::Decision(BehaviorHandle(1)), BehaviorStatus::running(false)));
    assert!(!should_pick(BehaviorRoot::Forced(BehaviorHandle(1)), BehaviorStatus::success()));
    assert!(should_pick(BehaviorRoot::Decision(BehaviorHandle(1)), BehaviorStatus::failure()));
}

#[test]
fn composite_step_decides_per_kind() {
    let ok = BehaviorStatus::success();
    let bad = BehaviorStatus::failure();
    assert!(composite_step(CompositeKind::Selector, bad).is_none());
    assert!(same(composite_step(CompositeKind::Selector, ok).unwrap(), ok));
    assert!(composite_step(CompositeKind::Sequence, ok).is_none());
    assert!(same(composite_step(CompositeKind::Sequence, bad).unwrap(), bad));
    assert!(composite_step(CompositeKind::All, ok).is_none());
    assert!(composite_step(CompositeKind::All, bad).is_none());
    let running = BehaviorStatus::running(true);
    assert!(same(composite_step(CompositeKind::All, running).unwrap(), running));
    let bail = BehaviorStatus::bail();
    assert!(same(composite_step(CompositeKind::Selector, bail).unwrap(), bail));
}

//! The queue of tasks a building or designation offers: the tasks by
//! handle, the ones available per kind ordered by priority, and the ones
//! taken by a pawn.
use vstd::prelude::*;
use std::collections::{BTreeSet, HashMap};
use slotmap::{DefaultKey, KeyData, SlotMap};
use crate::task::{Task, TaskKind};
use vstd::std_specs::btree::{spec_btree_keys_iter, increasing_seq};
use vstd::std_specs::iter::IteratorSpec;
use vstd::std_specs::cmp::OrdSpec;
use vstd::laws_cmp::obeys_cmp;

verus! {

broadcast use vstd::laws_cmp::group_laws_cmp, vstd::std_specs::hash::group_hash_axioms,
    vstd::std_specs::btree::group_btree_axioms;

/// Refers to a task of a queue. It holds a slot map key in its 64 bit form:
/// the slot index in the low half and the slot version, always odd for a
/// key handed out, in the high half.
#[derive(Debug, Clone, Copy, PartialEq, Eq, Hash, Structural)]
pub struct TaskHandle {
    ffi: u64,
}

/// Whether `ffi` is the 64 bit form of a key of an occupied slot: its
/// version, in the high half, is odd.
pub open spec fn valid_ffi(ffi: u64) -> bool {
    (ffi / 0x1_0000_0000) % 2 == 1
}

impl TaskHandle {
    #[verifier::type_invariant]
    spec fn inv(self) -> bool {
        valid_ffi(self.ffi)
    }

    pub closed spec fn spec_ffi(self) -> u64 {
        self.ffi
    }

    /// The slot index of the key.
    pub open spec fn spec_idx(self) -> u32 {
        (self.spec_ffi() % 0x1_0000_0000) as u32
    }

    /// The slot version of the key.
    pub open spec fn spec_version(self) -> u32 {
        (self.spec_ffi() / 0x1_0000_0000) as u32
    }

    /// The slot index of the key.
    pub fn idx(&self) -> (r: u32)
        ensures
            r == self.spec_idx(),
    {
        let v = self.ffi;
        let r = (v & 0xffff_ffff) as u32;
        assert(r == (v % 0x1_0000_0000) as u32) by (bit_vector)
            requires
                r == (v & 0xffff_ffff) as u32,
        ;
        r
    }

    /// The slot version of the key.
    pub fn version(&self) -> (r: u32)
        ensures
            r == self.spec_version(),
    {
        let v = self.ffi;
        let r = (v >> 32) as u32;
        assert(r == (v / 0x1_0000_0000) as u32) by (bit_vector)
            requires
                r == (v >> 32) as u32,
        ;
        r
    }
}

/// Two handles with the same index and version are the same handle.
pub proof fn lemma_handle_parts(a: TaskHandle, b: TaskHandle)
    ensures
        (a.spec_idx() == b.spec_idx() && a.spec_version() == b.spec_version()) <==> a == b,
{
    let x = a.spec_ffi();
    let y = b.spec_ffi();
    assert((x % 0x1_0000_0000) as u32 == (y % 0x1_0000_0000) as u32 && (x / 0x1_0000_0000) as u32
        == (y / 0x1_0000_0000) as u32 ==> x == y) by (bit_vector);
    if x == y {
        assert(a == b) by {
            lemma_handle_ext(a, b);
        }
    }
}

/// Handles are equal when their keys are.
proof fn lemma_handle_ext(a: TaskHandle, b: TaskHandle)
    requires
        a.spec_ffi() == b.spec_ffi(),
    ensures
        a == b,
{
}

/// The tasks of a queue, in a `slotmap::SlotMap`.
#[verifier::external_body]
pub struct TaskSlots {
    inner: SlotMap<DefaultKey, Task>,
}

/// The tasks a `TaskSlots` holds, by handle.
pub uninterp spec fn task_slots(s: TaskSlots) -> Map<TaskHandle, Task>;

impl TaskSlots {
    /// An empty slot map: `SlotMap::new`.
    #[verifier::external_body]
    pub fn new() -> (r: TaskSlots)
        ensures
            task_slots(r) =~= Map::empty(),
    {
        TaskSlots { inner: SlotMap::new() }
    }

    /// Stores `task` under a key that no stored task has: `SlotMap::insert`.
    /// It panics when the number of tasks would reach `u32::MAX`, which
    /// the `requires` leaves out.
    #[verifier::external_body]
    pub fn insert(&mut self, task: Task) -> (h: TaskHandle)
        requires
            task_slots(*old(self)).dom().finite(),
            task_slots(*old(self)).len() + 1 < u32::MAX,
        ensures
            !task_slots(*old(self)).contains_key(h),
            task_slots(*final(self)) == task_slots(*old(self)).insert(h, task),
    {
        TaskHandle { ffi: KeyData::from(self.inner.insert(task)).as_ffi() }
    }

    /// The task stored under `h`: `SlotMap::get` with the key
    /// `KeyData::from_ffi` gives back for `h`.
    #[verifier::external_body]
    pub fn get(&self, h: TaskHandle) -> (r: Option<&Task>)
        ensures
            match r {
                Some(t) => task_slots(*self).contains_key(h) && *t == task_slots(*self)[h],
                None => !task_slots(*self).contains_key(h),
            },
    {
        self.inner.get(DefaultKey::from(KeyData::from_ffi(h.ffi)))
    }

    /// Takes out the task stored under `h`: `SlotMap::remove`.
    #[verifier::external_body]
    pub fn remove(&mut self, h: TaskHandle) -> (r: Option<Task>)
        ensures
            task_slots(*final(self)) == task_slots(*old(self)).remove(h),
            match r {
                Some(t) => task_slots(*old(self)).contains_key(h) && t == task_slots(*old(self))[h],
                None => !task_slots(*old(self)).contains_key(h),
            },
    {
        self.inner.remove(DefaultKey::from(KeyData::from_ffi(h.ffi)))
    }

    /// A copy of the slot map: `SlotMap::clone`, derived, which copies
    /// every slot with its version, so the copy holds the same tasks under
    /// the same keys.
    #[verifier::external_body]
    pub fn clone_slots(&self) -> (r: TaskSlots)
        ensures
            task_slots(r) == task_slots(*self),
    {
        TaskSlots { inner: self.inner.clone() }
    }

    /// The number of tasks: `SlotMap::len`.
    #[verifier::external_body]
    pub fn len(&self) -> (r: usize)
        ensures
            r == task_slots(*self).len(),
    {
        self.inner.len()
    }

    /// Every task with its handle: `SlotMap::iter`, in slot order.
    #[verifier::external_body]
    pub fn iter_all(&self) -> (r: Vec<(TaskHandle, Task)>)
        ensures
            r@.len() == task_slots(*self).len(),
            forall|i: int| 0 <= i < r@.len() ==> task_slots(*self).contains_key(#[trigger] r@[i].0)
                && task_slots(*self)[r@[i].0] == r@[i].1,
            forall|i: int, j: int| 0 <= i < j < r@.len() ==> r@[i].0 != r@[j].0,
    {
        self.inner.iter().map(|(k, t)| (TaskHandle { ffi: KeyData::from(k).as_ffi() }, *t)).collect()
    }
}

/// The place of a task in the ordered sets of a queue: its priority, then
/// its slot index and version.
pub type EntryKey = (u8, u32, u32);

/// The entry of the task `t` stored under `h`.
pub open spec fn entry_key(h: TaskHandle, t: Task) -> EntryKey {
    (t.priority, h.spec_idx(), h.spec_version())
}

/// An entry of the ordered sets of a queue: a task's priority and handle.
#[derive(Debug, Clone, Copy, PartialEq, Eq, Structural)]
pub struct TaskQueueEntry {
    pub priority: u8,
    pub handle: TaskHandle,
}

/// `a` comes no later than `b`: by priority, then slot index, then version.
pub open spec fn key_le(a: EntryKey, b: EntryKey) -> bool {
    ||| a.0 < b.0
    ||| (a.0 == b.0 && a.1 < b.1)
    ||| (a.0 == b.0 && a.1 == b.1 && a.2 <= b.2)
}

/// `m` is the last entry of `s`.
pub open spec fn is_max(s: Set<EntryKey>, m: EntryKey) -> bool {
    s.contains(m) && forall|x: EntryKey| #[trigger] s.contains(x) ==> key_le(x, m)
}

/// The entries of `s` come in increasing order.
pub open spec fn ascending(s: Seq<EntryKey>) -> bool {
    forall|i: int, j: int| 0 <= i < j < s.len() ==> key_le(#[trigger] s[i], #[trigger] s[j]) && s[i] != s[j]
}

/// The entries of `s` in increasing order.
pub open spec fn sorted_keys(s: Set<EntryKey>) -> Seq<EntryKey> {
    choose|q: Seq<EntryKey>| q.to_set() == s && ascending(q) && q.len() == s.len()
}

/// `key_le` as a relation on entries.
pub open spec fn key_order() -> spec_fn(EntryKey, EntryKey) -> bool {
    |a: EntryKey, b: EntryKey| key_le(a, b)
}

/// Two increasing sequences of the same entries are the same sequence.
pub proof fn lemma_ascending_unique(a: Seq<EntryKey>, b: Seq<EntryKey>)
    requires
        ascending(a),
        ascending(b),
        a.to_set() == b.to_set(),
    ensures
        a == b,
{
    broadcast use vstd::multiset::group_multiset_axioms, vstd::seq_lib::group_to_multiset_ensures;
    let leq = key_order();
    assert(vstd::relations::total_ordering(leq)) by {
        assert forall|x: EntryKey, y: EntryKey, z: EntryKey|
            #[trigger] leq(x, y) && #[trigger] leq(y, z) implies leq(x, z) by {}
        assert forall|x: EntryKey, y: EntryKey| #[trigger] leq(x, y) && #[trigger] leq(y, x) implies x == y by {}
    }
    assert(a.no_duplicates());
    assert(b.no_duplicates());
    a.lemma_multiset_has_no_duplicates();
    b.lemma_multiset_has_no_duplicates();
    assert forall|x: EntryKey| a.to_multiset().count(x) == b.to_multiset().count(x) by {
        assert(a.to_set().contains(x) == a.contains(x));
        assert(b.to_set().contains(x) == b.contains(x));
        if a.contains(x) {
            assert(a.to_multiset().contains(x));
            assert(b.to_multiset().contains(x));
        } else {
            assert(!b.contains(x));
        }
    }
    assert(a.to_multiset() =~= b.to_multiset());
    assert(vstd::relations::sorted_by(a, leq));
    assert(vstd::relations::sorted_by(b, leq));
    vstd::seq_lib::lemma_sorted_unique(a, b, leq);
}

/// The handle an entry belongs to.
pub open spec fn entry_handle_ffi(e: EntryKey) -> u64 {
    (e.2 as int * 0x1_0000_0000 + e.1 as int) as u64
}

/// The entry's version is that of a handed out key.
pub open spec fn valid_entry(e: EntryKey) -> bool {
    e.2 % 2 == 1
}

/// The entries of every set are valid.
pub open spec fn valid_entries(s: Set<EntryKey>) -> bool {
    forall|e: EntryKey| #[trigger] s.contains(e) ==> valid_entry(e)
}

/// The handle an entry refers to.
pub open spec fn handle_of(e: EntryKey) -> TaskHandle {
    choose|h: TaskHandle| h.spec_idx() == e.1 && h.spec_version() == e.2
}

/// The handle of the entry `e`.
fn entry_handle(e: EntryKey) -> (h: TaskHandle)
    requires
        valid_entry(e),
    ensures
        h.spec_idx() == e.1,
        h.spec_version() == e.2,
        h == handle_of(e),
{
    let ffi: u64 = ((e.2 as u64) << 32) | (e.1 as u64);
    let i = e.1;
    let v = e.2;
    assert(ffi == (((v as u64) << 32) | (i as u64)) ==> (ffi % 0x1_0000_0000) as u32 == i && (ffi
        / 0x1_0000_0000) as u32 == v && (v % 2 == 1 ==> (ffi / 0x1_0000_0000) % 2 == 1)) by (bit_vector);
    let h = TaskHandle { ffi };
    proof {
        let c = handle_of(e);
        assert(h.spec_idx() == e.1 && h.spec_version() == e.2);
        lemma_handle_parts(h, c);
    }
    h
}

/// The entry of the task `t` stored under `h`.
fn make_entry(h: TaskHandle, t: &Task) -> (e: EntryKey)
    ensures
        e == entry_key(h, *t),
        valid_entry(e),
{
    proof {
        use_type_invariant(&h);
        let f = h.spec_ffi();
        assert(valid_ffi(f) ==> ((f / 0x1_0000_0000) as u32) % 2 == 1) by (bit_vector);
    }
    (t.priority, h.idx(), h.version())
}

/// `BTreeSet::last` of std: the greatest entry of the set, if it has any.
/// Entries are tuples, ordered as `key_le` says (std's order of tuples).
#[verifier::external_body]
fn set_max(s: &BTreeSet<EntryKey>) -> (r: Option<EntryKey>)
    ensures
        match r {
            Some(m) => is_max(s@, m),
            None => s@.is_empty(),
        },
{
    s.last().copied()
}

/// The queue: the tasks by handle, per kind (by its bits) the entries of
/// the tasks available, the kinds in the order their sets were made, and
/// the entries of the tasks taken.
pub struct TaskQueue {
    storage: TaskSlots,
    available: HashMap<u32, BTreeSet<EntryKey>>,
    kinds: Vec<u32>,
    taken: BTreeSet<EntryKey>,
}

/// What a queue holds: the tasks by handle, the available entries by kind
/// bits (for the kinds that have a set), and the taken entries.
pub type QueueState = (Map<TaskHandle, Task>, Map<u32, Set<EntryKey>>, Set<EntryKey>);

/// The entry of the task stored under `h`.
pub open spec fn entry_for(st: QueueState, h: TaskHandle) -> EntryKey {
    entry_key(h, st.0[h])
}

/// `av` with `e` added to the set of `b`, made empty first where missing.
pub open spec fn add_to(av: Map<u32, Set<EntryKey>>, b: u32, e: EntryKey) -> Map<u32, Set<EntryKey>> {
    av.insert(b, (if av.contains_key(b) { av[b] } else { Set::empty() }).insert(e))
}

/// The queue after storing `t` under the fresh handle `h`.
pub open spec fn after_insert(st: QueueState, h: TaskHandle, t: Task) -> QueueState {
    (st.0.insert(h, t), add_to(st.1, t.kind.bits, entry_key(h, t)), st.2)
}

/// Whether the task under `h` can be taken: it is stored, and its entry is
/// in the available set of its kind.
pub open spec fn can_take(st: QueueState, h: TaskHandle) -> bool {
    &&& st.0.contains_key(h)
    &&& st.1.contains_key(st.0[h].kind.bits)
    &&& st.1[st.0[h].kind.bits].contains(entry_for(st, h))
}

/// The queue after taking the task under `h`: its entry moves from the
/// available set of its kind to the taken ones; nothing changes where it
/// cannot be taken.
pub open spec fn after_take(st: QueueState, h: TaskHandle) -> QueueState {
    if can_take(st, h) {
        let b = st.0[h].kind.bits;
        (st.0, st.1.insert(b, st.1[b].remove(entry_for(st, h))), st.2.insert(entry_for(st, h)))
    } else {
        st
    }
}

/// The queue after cancelling the task under `h`: its entry leaves the
/// taken ones and joins the available set of its kind; nothing changes
/// where no task is stored under `h`.
pub open spec fn after_cancel(st: QueueState, h: TaskHandle) -> QueueState {
    if st.0.contains_key(h) {
        (st.0, add_to(st.1, st.0[h].kind.bits, entry_for(st, h)), st.2.remove(entry_for(st, h)))
    } else {
        st
    }
}

/// The queue after completing the task under `h`: the task is dropped and
/// its entry leaves the taken ones (an available entry stays).
pub open spec fn after_complete(st: QueueState, h: TaskHandle) -> QueueState {
    if st.0.contains_key(h) {
        (st.0.remove(h), st.1, st.2.remove(entry_for(st, h)))
    } else {
        st
    }
}

impl Clone for TaskQueue {
    /// A queue holding the same tasks, available entries and taken entries.
    fn clone(&self) -> (r: Self)
        ensures
            r.state() == self.state(),
            self.wf() ==> r.wf(),
    {
        let kinds = self.kinds.clone();
        proof {
            assert(kinds@ =~= self.kinds@);
        }
        TaskQueue {
            storage: self.storage.clone_slots(),
            available: self.available.clone(),
            kinds,
            taken: self.taken.clone(),
        }
    }
}

impl TaskQueue {
    /// What the queue holds.
    pub closed spec fn state(&self) -> QueueState {
        (task_slots(self.storage), self.available@.map_values(|s: BTreeSet<EntryKey>| s@), self.taken@)
    }

    /// The tasks, by handle.
    pub open spec fn tasks(&self) -> Map<TaskHandle, Task> {
        self.state().0
    }

    /// The entries available for kind `k`, or `None` when the queue never
    /// held a set for that kind.
    pub open spec fn available_of(&self, k: TaskKind) -> Option<Set<EntryKey>> {
        if self.state().1.contains_key(k.bits) {
            Some(self.state().1[k.bits])
        } else {
            None
        }
    }

    /// The entries available for kind `k`; none where there is no set.
    pub open spec fn available_set(&self, k: TaskKind) -> Set<EntryKey> {
        match self.available_of(k) {
            Some(s) => s,
            None => Set::empty(),
        }
    }

    /// The entries of the tasks taken.
    pub open spec fn taken_set(&self) -> Set<EntryKey> {
        self.state().2
    }

    /// The queue's parts agree: finitely many tasks, entries of handed out
    /// keys only, and a list of the kinds that have a set.
    pub closed spec fn wf(&self) -> bool {
        &&& task_slots(self.storage).dom().finite()
        &&& forall|b: u32| #[trigger] self.available@.contains_key(b) ==> valid_entries(self.available@[b]@)
        &&& valid_entries(self.taken@)
        &&& forall|b: u32| #[trigger] self.available@.contains_key(b) <==> self.kinds@.contains(b)
    }

    /// An empty queue.
    pub fn new() -> (r: TaskQueue)
        ensures
            r.wf(),
            r.state() == (Map::<TaskHandle, Task>::empty(), Map::<u32, Set<EntryKey>>::empty(), Set::<EntryKey>::empty()),
    {
        let r = TaskQueue {
            storage: TaskSlots::new(),
            available: HashMap::new(),
            kinds: Vec::new(),
            taken: BTreeSet::new(),
        };
        proof {
            assert(r.state().1 =~= Map::<u32, Set<EntryKey>>::empty());
        }
        r
    }

    /// Adds `e` to the set of kind `kind`, making the set if there is none.
    fn add_available(&mut self, kind: TaskKind, e: EntryKey)
        requires
            old(self).wf(),
            valid_entry(e),
        ensures
            final(self).wf(),
            final(self).state() == (old(self).state().0, add_to(old(self).state().1, kind.bits, e), old(self).state().2),
    {
        let mut set = match self.available.remove(&kind.bits) {
            Some(s) => s,
            None => {
                self.kinds.push(kind.bits);
                BTreeSet::new()
            },
        };
        let ghost before = set@;
        set.insert(e);
        self.available.insert(kind.bits, set);
        proof {
            assert(valid_entries(before)) by {
                if old(self).available@.contains_key(kind.bits) {
                    assert(valid_entries(old(self).available@[kind.bits]@));
                }
            }
            assert(self.available@ == old(self).available@.insert(kind.bits, set));
            assert forall|b: u32| #[trigger] self.available@.contains_key(b) <==> self.kinds@.contains(b) by {
                if old(self).kinds@.contains(b) {
                    let j = choose|j: int| 0 <= j < old(self).kinds@.len() && old(self).kinds@[j] == b;
                    assert(self.kinds@[j] == b);
                }
                if b != kind.bits && self.kinds@.contains(b) {
                    let j = choose|j: int| 0 <= j < self.kinds@.len() && self.kinds@[j] == b;
                    if j < old(self).kinds@.len() {
                        assert(old(self).kinds@[j] == b);
                    }
                }
                if b == kind.bits && !old(self).kinds@.contains(b) {
                    assert(self.kinds@[self.kinds@.len() - 1] == b);
                }
            }
            assert forall|b: u32| #[trigger] self.available@.contains_key(b) implies valid_entries(self.available@[b]@) by {
                if b != kind.bits {
                    assert(old(self).available@.contains_key(b));
                }
            }
            assert(self.state().1 =~= add_to(old(self).state().1, kind.bits, e));
        }
    }

    /// Stores `task`, available for its kind; gives its handle.
    pub fn insert(&mut self, task: Task) -> (h: TaskHandle)
        requires
            old(self).wf(),
            old(self).tasks().len() + 1 < u32::MAX,
        ensures
            final(self).wf(),
            !old(self).tasks().contains_key(h),
            final(self).state() == after_insert(old(self).state(), h, task),
    {
        let h = self.storage.insert(task);
        let e = make_entry(h, &task);
        self.add_available(task.kind, e);
        h
    }

    /// The task stored under `handle`.
    pub fn get(&self, handle: TaskHandle) -> (r: Option<&Task>)
        ensures
            match r {
                Some(t) => self.tasks().contains_key(handle) && *t == self.tasks()[handle],
                None => !self.tasks().contains_key(handle),
            },
    {
        self.storage.get(handle)
    }

    /// Every task with its handle.
    pub fn iter_all(&self) -> (r: Vec<(TaskHandle, Task)>)
        ensures
            r@.len() == self.tasks().len(),
            forall|i: int| 0 <= i < r@.len() ==> self.tasks().contains_key(#[trigger] r@[i].0)
                && self.tasks()[r@[i].0] == r@[i].1,
            forall|i: int, j: int| 0 <= i < j < r@.len() ==> r@[i].0 != r@[j].0,
    {
        self.storage.iter_all()
    }

    /// The number of tasks stored.
    pub fn len(&self) -> (r: usize)
        ensures
            r == self.tasks().len(),
    {
        self.storage.len()
    }

    /// Whether no task is stored.
    pub fn is_empty(&self) -> (r: bool)
        ensures
            r == (self.tasks().len() == 0),
    {
        self.storage.len() == 0
    }

    /// Whether the task under `handle` is stored and not taken.
    pub fn is_available(&self, handle: TaskHandle) -> (r: bool)
        ensures
            r == (self.tasks().contains_key(handle) && !self.taken_set().contains(entry_for(self.state(), handle))),
    {
        match self.storage.get(handle) {
            Some(task) => {
                let e = make_entry(handle, task);
                !self.taken.contains(&e)
            },
            None => false,
        }
    }

    /// Takes the task under `handle`: its entry moves from the available
    /// set of its kind to the taken ones. `None`, with nothing changed,
    /// when no task is stored under it or its entry is not available.
    pub fn take(&mut self, handle: TaskHandle) -> (r: Option<Task>)
        requires
            old(self).wf(),
        ensures
            final(self).wf(),
            final(self).state() == after_take(old(self).state(), handle),
            r == if can_take(old(self).state(), handle) {
                Some(old(self).tasks()[handle])
            } else {
                None::<Task>
            },
    {
        let task = match self.storage.get(handle) {
            Some(t) => *t,
            None => {
                return None;
            },
        };
        let e = make_entry(handle, &task);
        let b = task.kind.bits;
        let mut set = match self.available.remove(&b) {
            Some(s) => s,
            None => {
                return None;
            },
        };
        let removed = set.remove(&e);
        self.available.insert(b, set);
        proof {
            assert(old(self).available@.contains_key(b));
            assert(valid_entries(old(self).available@[b]@));
            assert(self.available@ == old(self).available@.insert(b, set));
            assert forall|x: u32| #[trigger] self.available@.contains_key(x) implies valid_entries(self.available@[x]@) by {
                if x != b {
                    assert(old(self).available@.contains_key(x));
                }
            }
        }
        if !removed {
            proof {
                assert(set@ == old(self).available@[b]@);
                assert(self.state().1 =~= old(self).state().1);
            }
            return None;
        }
        self.taken.insert(e);
        proof {
            assert(self.state().1 =~= old(self).state().1.insert(b, old(self).state().1[b].remove(e)));
        }
        Some(task)
    }

    /// Puts the task under `handle` back: its entry leaves the taken ones
    /// and joins the available set of its kind. `false`, with nothing
    /// changed, when no task is stored under it.
    pub fn cancel(&mut self, handle: TaskHandle) -> (r: bool)
        requires
            old(self).wf(),
        ensures
            final(self).wf(),
            final(self).state() == after_cancel(old(self).state(), handle),
            r == old(self).tasks().contains_key(handle),
    {
        match self.storage.get(handle) {
            Some(t) => {
                let task = *t;
                let e = make_entry(handle, &task);
                self.taken.remove(&e);
                self.add_available(task.kind, e);
                true
            },
            None => false,
        }
    }

    /// Drops the task under `handle`; tells whether its entry was among the
    /// taken ones (and removes it from them). An available entry of the
    /// task stays where it is.
    pub fn complete(&mut self, handle: TaskHandle) -> (r: bool)
        requires
            old(self).wf(),
        ensures
            final(self).wf(),
            final(self).state() == after_complete(old(self).state(), handle),
            r == (old(self).tasks().contains_key(handle) && old(self).taken_set().contains(entry_for(old(self).state(), handle))),
    {
        let mut res = false;
        match self.storage.get(handle) {
            Some(t) => {
                let e = make_entry(handle, t);
                res = self.taken.remove(&e);
            },
            None => {},
        }
        self.storage.remove(handle);
        proof {
            if !old(self).tasks().contains_key(handle) {
                assert(task_slots(self.storage) =~= task_slots(old(self).storage));
            }
        }
        res
    }

    /// The handle of the available entry of kind `kind` with the highest
    /// priority (then slot index, then version).
    pub fn top(&self, kind: TaskKind) -> (r: Option<TaskHandle>)
        requires
            self.wf(),
        ensures
            match r {
                Some(h) => exists|m: EntryKey|
                    is_max(self.available_set(kind), m) && m.1 == h.spec_idx() && m.2 == h.spec_version(),
                None => self.available_set(kind).is_empty(),
            },
    {
        match self.available.get(&kind.bits) {
            Some(set) => match set_max(set) {
                Some(m) => {
                    proof {
                        assert(self.available@.contains_key(kind.bits));
                        assert(valid_entries(self.available@[kind.bits]@));
                        assert(is_max(self.available_set(kind), m));
                    }
                    Some(entry_handle(m))
                },
                None => None,
            },
            None => None,
        }
    }

    /// The handle of the top entry of some kind that has one; which kind
    /// is left to the order in which the sets are walked.
    pub fn top_any(&self) -> (r: Option<TaskHandle>)
        requires
            self.wf(),
        ensures
            match r {
                Some(h) => exists|k: TaskKind, m: EntryKey|
                    is_max(self.available_set(k), m) && m.1 == h.spec_idx() && m.2 == h.spec_version(),
                None => forall|k: TaskKind| #[trigger] self.available_set(k).is_empty(),
            },
    {
        let mut i: usize = 0;
        while i < self.kinds.len()
            invariant
                self.wf(),
                i <= self.kinds@.len(),
                forall|j: int| 0 <= j < i ==> #[trigger] self.available@[self.kinds@[j]]@.is_empty(),
            decreases self.kinds@.len() - i,
        {
            let key = self.kinds[i];
            proof {
                assert(self.kinds@.contains(key));
                assert(self.available@.contains_key(key));
            }
            match self.available.get(&key) {
                Some(set) => match set_max(set) {
                    Some(m) => {
                        proof {
                            assert(valid_entries(self.available@[key]@));
                            assert(self.available_set(TaskKind { bits: key }) == self.available@[key]@);
                            assert(is_max(self.available_set(TaskKind { bits: key }), m));
                        }
                        return Some(entry_handle(m));
                    },
                    None => {},
                },
                None => {},
            }
            i = i + 1;
        }
        proof {
            assert forall|k: TaskKind| #[trigger] self.available_set(k).is_empty() by {
                if self.available@.contains_key(k.bits) {
                    assert(self.kinds@.contains(k.bits));
                    let j = choose|j: int| 0 <= j < self.kinds@.len() && self.kinds@[j] == k.bits;
                    assert(self.available@[self.kinds@[j]]@.is_empty());
                }
            }
        }
        None
    }

    /// The entries available for kind `kind`, in increasing order; `None`
    /// when the queue never held a set for that kind.
    pub fn iter_available(&self, kind: TaskKind) -> (r: Option<Vec<TaskQueueEntry>>)
        requires
            self.wf(),
        ensures
            match r {
                Some(v) => self.available_of(kind) matches Some(set) && v@.map_values(
                    |x: TaskQueueEntry| entry_of_item(x),
                ).to_set() == set && ascending(v@.map_values(|x: TaskQueueEntry| entry_of_item(x)))
                    && v@.len() == set.len()
                    && v@.map_values(|x: TaskQueueEntry| entry_of_item(x)) == sorted_keys(set),
                None => self.available_of(kind) is None,
            },
    {
        match self.available.get(&kind.bits) {
            Some(set) => {
                proof {
                    assert(valid_entries(self.available@[kind.bits]@));
                }
                let ghost all = spec_btree_keys_iter(set).remaining().unref();
                proof {
                    assert(all.to_set() == set@);
                    assert(all.len() == set@.len());
                    lemma_ascending(spec_btree_keys_iter(set).remaining());
                }
                let mut v: Vec<TaskQueueEntry> = Vec::new();
                for e in it: set.iter()
                    invariant
                        valid_entries(set@),
                        all.to_set() == set@,
                        all == it.seq().unref(),
                        v@.len() == it.index(),
                        forall|j: int| 0 <= j < it.index() ==> #[trigger] entry_of_item(v@[j]) == all[j],
                {
                    proof {
                        assert(all[it.index()] == *e);
                        assert(all.to_set().contains(*e));
                    }
                    let h = entry_handle(*e);
                    v.push(TaskQueueEntry { priority: e.0, handle: h });
                }
                proof {
                    assert(v@.map_values(|x: TaskQueueEntry| entry_of_item(x)) == all);
                    let q = sorted_keys(set@);
                    assert(all.to_set() == set@ && ascending(all) && all.len() == set@.len());
                    assert(q.to_set() == set@ && ascending(q) && q.len() == set@.len());
                    lemma_ascending_unique(all, q);
                }
                Some(v)
            },
            None => None,
        }
    }

    /// A queue holding `tasks`, each available for its kind.
    pub fn from_tasks(tasks: Vec<Task>) -> (r: TaskQueue)
        requires
            tasks@.len() + 1 < u32::MAX,
        ensures
            r.wf(),
            r.tasks().len() == tasks@.len(),
            r.taken_set() == Set::<EntryKey>::empty(),
            exists|hs: Seq<TaskHandle>| #[trigger] hs.len() == tasks@.len() && r.tasks().dom() == hs.to_set()
                && forall|j: int| 0 <= j < hs.len() ==> r.tasks()[#[trigger] hs[j]] == tasks@[j],
    {
        let mut q = TaskQueue::new();
        let ghost mut hs: Seq<TaskHandle> = Seq::empty();
        let mut i: usize = 0;
        while i < tasks.len()
            invariant
                q.wf(),
                i <= tasks@.len(),
                tasks@.len() + 1 < u32::MAX,
                hs.len() == i,
                q.tasks().len() == i,
                q.tasks().dom() == hs.to_set(),
                q.taken_set() == Set::<EntryKey>::empty(),
                forall|j: int| 0 <= j < hs.len() ==> q.tasks()[#[trigger] hs[j]] == tasks@[j],
            decreases tasks@.len() - i,
        {
            let ghost before = q.tasks();
            let h = q.insert(tasks[i]);
            proof {
                assert(before.dom().finite());
                assert(q.tasks().dom() == before.dom().insert(h));
                assert forall|x: TaskHandle| hs.push(h).contains(x) <==> (hs.contains(x) || x == h) by {
                    if hs.push(h).contains(x) {
                        let j = choose|j: int| 0 <= j < hs.push(h).len() && hs.push(h)[j] == x;
                        if j < hs.len() {
                            assert(hs[j] == x);
                        }
                    }
                    if hs.contains(x) {
                        let j = choose|j: int| 0 <= j < hs.len() && hs[j] == x;
                        assert(hs.push(h)[j] == x);
                    }
                    if x == h {
                        assert(hs.push(h)[hs.len() as int] == x);
                    }
                }
                assert(hs.push(h).to_set() =~= hs.to_set().insert(h));
                assert forall|j: int| 0 <= j < hs.len() implies #[trigger] q.tasks()[hs[j]] == tasks@[j] by {
                    assert(hs.to_set().contains(hs[j]));
                }
                hs = hs.push(h);
            }
            i = i + 1;
        }
        q
    }
}

/// The entries of a set's iterator come in increasing order.
proof fn lemma_ascending(s: Seq<&EntryKey>)
    requires
        increasing_seq(s),
    ensures
        ascending(s.unref()),
{
    assert(obeys_cmp::<u8>());
    assert(obeys_cmp::<u32>());
    assert(obeys_cmp::<EntryKey>());
    assert(obeys_cmp::<&EntryKey>());
    vstd::std_specs::btree::axiom_increasing_seq_meaning::<&EntryKey>(s);
    assert(increasing_seq(s));
    assert forall|i: int, j: int| 0 <= i < j < s.unref().len() implies key_le(#[trigger] s.unref()[i], #[trigger] s.unref()[j])
        && s.unref()[i] != s.unref()[j] by {
        assert(s.unref().len() == s.len());
        assert(0 <= i < j < s.len());
        assert(OrdSpec::cmp_spec(&s[i], &s[j]) is Less);
    }
}

/// The entry an item of `iter_available` stands for.
pub open spec fn entry_of_item(x: TaskQueueEntry) -> EntryKey {
    (x.priority, x.handle.spec_idx(), x.handle.spec_version())
}

/// A task stored by `insert` can be read back and taken.
pub proof fn lemma_insert_then_take(st: QueueState, h: TaskHandle, t: Task)
    requires
        !st.0.contains_key(h),
    ensures
        after_insert(st, h, t).0[h] == t,
        can_take(after_insert(st, h, t), h),
{
}

/// A task just taken cannot be taken again.
pub proof fn lemma_take_once(st: QueueState, h: TaskHandle)
    requires
        can_take(st, h),
    ensures
        !can_take(after_take(st, h), h),
{
}

/// Cancelling a task just taken gives back the queue as it was before the
/// take, where the task's entry was not among the taken ones already.
pub proof fn lemma_take_then_cancel(st: QueueState, h: TaskHandle)
    requires
        can_take(st, h),
        !st.2.contains(entry_for(st, h)),
    ensures
        after_cancel(after_take(st, h), h) == st,
{
    let b = st.0[h].kind.bits;
    let e = entry_for(st, h);
    let mid = after_take(st, h);
    assert(mid.1[b].insert(e) =~= st.1[b]);
    assert(add_to(mid.1, b, e) =~= st.1);
    assert(mid.2.remove(e) =~= st.2);
}

/// Cancelling undoes a take: after a task is inserted under a fresh
/// handle and taken, cancelling it leaves the same tasks stored (so the
/// length is unchanged), the task available again (stored and not taken),
/// and a second take possible.
pub proof fn lemma_cancel_undoes_take(st: QueueState, h: TaskHandle, t: Task)
    requires
        !st.0.contains_key(h),
    ensures
        ({
            let inserted = after_insert(st, h, t);
            let cancelled = after_cancel(after_take(inserted, h), h);
            &&& can_take(inserted, h)
            &&& cancelled.0 == inserted.0
            &&& cancelled.0.contains_key(h)
            &&& !cancelled.2.contains(entry_for(cancelled, h))
            &&& can_take(cancelled, h)
        }),
{
}

/// Cancelling a handle under which no task is stored changes nothing.
pub proof fn lemma_cancel_absent(st: QueueState, h: TaskHandle)
    requires
        !st.0.contains_key(h),
    ensures
        after_cancel(st, h) == st,
{
}

/// A completed task is no longer stored.
pub proof fn lemma_complete_removes(st: QueueState, h: TaskHandle)
    ensures
        !after_complete(st, h).0.contains_key(h),
{
}

} // verus!

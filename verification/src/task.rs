//! Work tasks: their kinds, per-pawn priorities and task records.
use vstd::prelude::*;
use crate::defs::ReactionDefinitionId;
use crate::components::Entity;

verus! {

/// A set of task kinds, one bit each, highest bit first.
#[derive(Debug, Clone, Copy, PartialEq, Eq, Hash, Structural)]
pub struct TaskKind {
    pub bits: u32,
}

/// The number of task kinds.
pub const TASKKIND_COUNT: usize = 3;

/// The bits of all task kinds together.
pub open spec fn all_task_bits() -> u32 {
    0xE000_0000u32
}

impl TaskKind {
    pub open spec fn spec_bits(self) -> u32 {
        self.bits
    }

    /// Every `TaskKind` holds known bits only.
    pub open spec fn wf(self) -> bool {
        self.spec_bits() & !all_task_bits() == 0
    }

    pub fn mining() -> (r: TaskKind)
        ensures
            r.spec_bits() == 0x8000_0000u32,
    {
        TaskKind { bits: 0x8000_0000u32 }
    }

    pub fn cleaning() -> (r: TaskKind)
        ensures
            r.spec_bits() == 0x4000_0000u32,
    {
        TaskKind { bits: 0x4000_0000u32 }
    }

    pub fn woodcutting() -> (r: TaskKind)
        ensures
            r.spec_bits() == 0x2000_0000u32,
    {
        TaskKind { bits: 0x2000_0000u32 }
    }

    pub fn empty() -> (r: TaskKind)
        ensures
            r.spec_bits() == 0,
    {
        TaskKind { bits: 0 }
    }

    pub fn bits(&self) -> (r: u32)
        ensures
            r == self.spec_bits(),
    {
        self.bits
    }

    /// The kinds with the given bits; `None` when a bit names no kind.
    pub fn from_bits(bits: u32) -> (r: Option<TaskKind>)
        ensures
            r is Some <==> bits & !all_task_bits() == 0,
            r matches Some(k) ==> k.spec_bits() == bits,
    {
        if bits & !0xE000_0000u32 == 0 {
            Some(TaskKind { bits })
        } else {
            None
        }
    }
}

/// The bit that the priority at position `p` stands for.
pub open spec fn spec_set_bit(p: u32) -> u32
    recommends
        p < 32,
{
    (1u32 << (31 - p) as u32) as u32
}

/// How much a pawn wants to do each kind of task.
#[derive(Debug, Clone, Copy)]
pub struct TaskPrioritiesComponent {
    priorities: [u8; 3],
}

/// The position of a single-bit kind in the priority table.
pub open spec fn kind_slot(kind: TaskKind) -> int {
    if kind.spec_bits() == 0x8000_0000u32 {
        0
    } else if kind.spec_bits() == 0x4000_0000u32 {
        1
    } else {
        2
    }
}

/// `kind` is exactly one of the task kinds.
pub open spec fn single_kind(kind: TaskKind) -> bool {
    kind.spec_bits() == 0x8000_0000u32 || kind.spec_bits() == 0x4000_0000u32
        || kind.spec_bits() == 0x2000_0000u32
}

impl TaskPrioritiesComponent {
    pub closed spec fn spec_priorities(self) -> Seq<u8> {
        self.priorities@
    }

    pub fn default() -> (r: TaskPrioritiesComponent)
        ensures
            r.spec_priorities() == seq![0u8, 0u8, 0u8],
    {
        let r = TaskPrioritiesComponent { priorities: [0u8, 0u8, 0u8] };
        assert(r.spec_priorities() =~= seq![0u8, 0u8, 0u8]);
        r
    }

    /// The bit of position `p`.
    pub fn set_bit(p: u32) -> (r: u32)
        requires
            p < 32,
        ensures
            r == spec_set_bit(p),
    {
        1u32 << (31 - p)
    }

    /// The position of a single-bit value `n`; `None` when `n` is not a power of two.
    pub fn get_bit_index(n: u32) -> (r: Option<usize>)
        ensures
            r is Some <==> (n > 0 && n & ((n - 1) as u32) == 0),
            r matches Some(p) ==> p < 32 && spec_set_bit(p as u32) == n,
    {
        if !(n > 0 && ((n & (n - 1)) == 0)) {
            return None;
        }
        let ghost n0 = n;
        let mut m = n;
        let mut count: u32 = 0;
        proof {
            assert(n0 >> 0u32 == n0) by (bit_vector);
        }
        while m != 0
            invariant
                count <= 32,
                count < 32 ==> m == n0 >> count,
                count == 32 ==> m == 0,
                n0 > 0,
                n0 & ((n0 - 1) as u32) == 0,
                m == 0 ==> count >= 1 && n0 >> ((count - 1) as u32) == 1u32,
            decreases 32 - count,
        {
            let ghost prev = m;
            m = m >> 1;
            proof {
                let c = count;
                assert(c < 32 && prev == n0 >> c && m == prev >> 1u32 ==> (c + 1 < 32 ==> m == n0 >> ((c + 1) as u32))) by (bit_vector);
                assert(c == 31 && prev == n0 >> c && m == prev >> 1u32 ==> m == 0) by (bit_vector);
                assert(prev != 0 && m == prev >> 1u32 && m == 0 && n0 > 0 && n0 & ((n0 - 1) as u32) == 0 && c < 32 && prev == n0 >> c
                    ==> n0 >> c == 1u32) by (bit_vector);
            }
            count = count + 1;
        }
        proof {
            let c = ((count - 1) as u32);
            assert(n0 > 0 && n0 & ((n0 - 1) as u32) == 0 && c < 32 && n0 >> c == 1u32 ==> n0 == 1u32 << c) by (bit_vector);
            assert(c < 32 ==> 31 - (31 - c) == c) by (bit_vector);
        }
        Some(32 - count as usize)
    }
}

/// The position of a single-bit kind is the one `get_bit_index` finds for its bit.
proof fn lemma_slot_of_bit(kind: TaskKind, p: usize)
    requires
        single_kind(kind),
        p < 32,
        spec_set_bit(p as u32) == kind.spec_bits(),
    ensures
        p == kind_slot(kind),
{
    let q = p as u32;
    let b = kind.spec_bits();
    assert(q < 32 && (1u32 << (31 - q) as u32) == 0x8000_0000u32 ==> q == 0) by (bit_vector);
    assert(q < 32 && (1u32 << (31 - q) as u32) == 0x4000_0000u32 ==> q == 1) by (bit_vector);
    assert(q < 32 && (1u32 << (31 - q) as u32) == 0x2000_0000u32 ==> q == 2) by (bit_vector);
}

/// The priority table has one entry per kind.
pub proof fn lemma_priorities_len(p: TaskPrioritiesComponent)
    ensures
        p.spec_priorities().len() == 3,
{
}

/// `a` comes before `b` in priority order: lower priority first, ties by
/// the order of the kinds.
pub open spec fn priority_before(a: (TaskKind, u8), b: (TaskKind, u8)) -> bool {
    a.1 < b.1 || (a.1 == b.1 && kind_slot(a.0) < kind_slot(b.0))
}

/// `r` lists the kinds of `p` with their priorities, in priority order.
pub open spec fn is_priority_order(p: TaskPrioritiesComponent, r: Seq<(TaskKind, u8)>) -> bool {
    &&& r.len() == 3
    &&& forall|i: int, j: int| 0 <= i < j < 3 ==> priority_before(#[trigger] r[i], #[trigger] r[j])
    &&& exists|a: int, b: int, c: int|
        0 <= a < 3 && 0 <= b < 3 && 0 <= c < 3 && a != b && b != c && a != c
        && r == seq![p.spec_iter()[a], p.spec_iter()[b], p.spec_iter()[c]]
}

/// The kinds of `p` with their priorities, in priority order.
pub open spec fn priority_order(p: TaskPrioritiesComponent) -> Seq<(TaskKind, u8)> {
    choose|r: Seq<(TaskKind, u8)>| is_priority_order(p, r)
}

/// There is one priority order: sorting the kinds leaves no choice.
pub proof fn lemma_priority_order_unique(p: TaskPrioritiesComponent, r1: Seq<(TaskKind, u8)>, r2: Seq<(TaskKind, u8)>)
    requires
        is_priority_order(p, r1),
        is_priority_order(p, r2),
    ensures
        r1 == r2,
{
    let it = p.spec_iter();
    let (a1, b1, c1) = choose|a: int, b: int, c: int|
        0 <= a < 3 && 0 <= b < 3 && 0 <= c < 3 && a != b && b != c && a != c
        && r1 == seq![it[a], it[b], it[c]];
    let (a2, b2, c2) = choose|a: int, b: int, c: int|
        0 <= a < 3 && 0 <= b < 3 && 0 <= c < 3 && a != b && b != c && a != c
        && r2 == seq![it[a], it[b], it[c]];
    assert(kind_slot(it[0].0) == 0 && kind_slot(it[1].0) == 1 && kind_slot(it[2].0) == 2);
    assert(priority_before(r1[0], r1[1]) && priority_before(r1[1], r1[2]) && priority_before(r1[0], r1[2]));
    assert(priority_before(r2[0], r2[1]) && priority_before(r2[1], r2[2]) && priority_before(r2[0], r2[2]));
    assert(a1 == a2 && b1 == b2 && c1 == c2);
    assert(r1 =~= r2);
}

impl TaskPrioritiesComponent {
    /// The table position of `kind`.
    fn slot(kind: TaskKind) -> (r: usize)
        requires
            single_kind(kind),
        ensures
            r == kind_slot(kind),
            r < 3,
    {
        let idx = Self::get_bit_index(kind.bits());
        proof {
            assert(kind.spec_bits() > 0 && kind.spec_bits() & ((kind.spec_bits() - 1) as u32) == 0) by {
                let b = kind.spec_bits();
                assert(b == 0x8000_0000u32 || b == 0x4000_0000u32 || b == 0x2000_0000u32 ==>
                    b > 0 && b & ((b - 1) as u32) == 0) by (bit_vector);
            }
        }
        let p = idx.unwrap();
        proof {
            lemma_slot_of_bit(kind, p);
        }
        p
    }

    /// Each kind in table order, with its priority.
    pub open spec fn spec_iter(self) -> Seq<(TaskKind, u8)> {
        seq![
            (TaskKind { bits: 0x8000_0000u32 }, self.spec_priorities()[0]),
            (TaskKind { bits: 0x4000_0000u32 }, self.spec_priorities()[1]),
            (TaskKind { bits: 0x2000_0000u32 }, self.spec_priorities()[2]),
        ]
    }

    /// Each kind in table order, with its priority.
    pub fn iter(&self) -> (r: Vec<(TaskKind, u8)>)
        ensures
            r@ == self.spec_iter(),
    {
        proof {
            lemma_priorities_len(*self);
        }
        let mut r: Vec<(TaskKind, u8)> = Vec::new();
        let mut n: usize = 0;
        while n < 3
            invariant
                n <= 3,
                self.spec_priorities().len() == 3,
                r@ == self.spec_iter().subrange(0, n as int),
            decreases 3 - n,
        {
            let bits = Self::set_bit(n as u32);
            proof {
                let q = n as u32;
                assert(q == 0 ==> (1u32 << (31 - q) as u32) == 0x8000_0000u32) by (bit_vector);
                assert(q == 1 ==> (1u32 << (31 - q) as u32) == 0x4000_0000u32) by (bit_vector);
                assert(q == 2 ==> (1u32 << (31 - q) as u32) == 0x2000_0000u32) by (bit_vector);
                assert(bits == 0x8000_0000u32 || bits == 0x4000_0000u32 || bits == 0x2000_0000u32);
                assert(bits == 0x8000_0000u32 || bits == 0x4000_0000u32 || bits == 0x2000_0000u32 ==>
                    bits & !0xE000_0000u32 == 0) by (bit_vector);
            }
            let kind = TaskKind::from_bits(bits).unwrap();
            r.push((kind, self.priorities[n]));
            n = n + 1;
        }
        assert(r@ =~= self.spec_iter());
        r
    }

    /// Each kind with its priority, lowest priority first; kinds of equal
    /// priority keep their table order.
    pub fn sorted(&self) -> (r: Vec<(TaskKind, u8)>)
        ensures
            r@ == priority_order(*self),
            r.len() == 3,
            forall|i: int, j: int| 0 <= i < j < 3 ==> priority_before(#[trigger] r@[i], #[trigger] r@[j]),
            exists|a: int, b: int, c: int|
                0 <= a < 3 && 0 <= b < 3 && 0 <= c < 3 && a != b && b != c && a != c
                && r@ == seq![self.spec_iter()[a], self.spec_iter()[b], self.spec_iter()[c]],
    {
        let mut v = self.iter();
        let ghost it = v@;
        let ghost mut p: (int, int, int) = (0, 1, 2);
        if v[0].1 > v[1].1 {
            let t = v[0];
            v.set(0, v[1]);
            v.set(1, t);
            proof { p = (p.1, p.0, p.2); }
        }
        if v[1].1 > v[2].1 {
            let t = v[1];
            v.set(1, v[2]);
            v.set(2, t);
            proof { p = (p.0, p.2, p.1); }
        }
        if v[0].1 > v[1].1 {
            let t = v[0];
            v.set(0, v[1]);
            v.set(1, t);
            proof { p = (p.1, p.0, p.2); }
        }
        assert(v@ =~= seq![it[p.0], it[p.1], it[p.2]]);
        proof {
            assert(is_priority_order(*self, v@));
            lemma_priority_order_unique(*self, v@, priority_order(*self));
        }
        v
    }

    /// The priority of the task kind `kind`.
    pub fn get(&self, kind: TaskKind) -> (r: u8)
        requires
            single_kind(kind),
        ensures
            r == self.spec_priorities()[kind_slot(kind)],
    {
        self.priorities[Self::slot(kind)]
    }

    /// Sets the priority of the task kind `kind`, leaving the others.
    pub fn set(&mut self, kind: TaskKind, priority: u8)
        requires
            single_kind(kind),
        ensures
            final(self).spec_priorities() == old(self).spec_priorities().update(kind_slot(kind), priority),
    {
        let i = Self::slot(kind);
        self.priorities[i] = priority;
    }

    /// After a kind's priority is set, that kind reads back the new priority
    /// and every other kind keeps the priority it had.
    pub proof fn lemma_get_after_set(self, kind: TaskKind, other: TaskKind, priority: u8)
        requires
            single_kind(kind),
            single_kind(other),
        ensures
            self.spec_priorities().update(kind_slot(kind), priority)[kind_slot(kind)] == priority,
            other.spec_bits() != kind.spec_bits() ==>
                self.spec_priorities().update(kind_slot(kind), priority)[kind_slot(other)]
                    == self.spec_priorities()[kind_slot(other)],
    {
        lemma_priorities_len(self);
    }
}

/// The state of a task.
#[derive(Debug, Clone, Copy, PartialEq, Eq, Hash, Structural)]
pub enum TaskResult {
    Waiting,
    Running(Entity),
    Complete,
    Failed,
    Cancelled,
}

impl TaskResult {
    pub fn default() -> (r: TaskResult)
        ensures
            r == TaskResult::Waiting,
    {
        TaskResult::Waiting
    }
}

/// A unit of work that pawns can take. Two tasks are equal when they run
/// the same reaction.
#[derive(Debug, Clone, Copy)]
pub struct Task {
    pub id: u128,
    pub priority: u8,
    pub kind: TaskKind,
    pub reaction: ReactionDefinitionId,
}

impl PartialEq for Task {
    fn eq(&self, other: &Self) -> (r: bool) {
        self.reaction == other.reaction
    }
}

impl vstd::std_specs::cmp::PartialEqSpecImpl for Task {
    open spec fn obeys_eq_spec() -> bool {
        true
    }

    open spec fn eq_spec(&self, other: &Self) -> bool {
        self.reaction == other.reaction
    }
}

/// Whether `id`, read as a UUID's 128 bits (big-endian), is a version 4
/// UUID of the RFC 4122 variant: the version nibble is 4 and the two top
/// bits of the variant byte are `10`.
pub open spec fn is_v4_id(id: u128) -> bool {
    &&& (id >> 76u128) & 0xfu128 == 4u128
    &&& (id >> 62u128) & 0x3u128 == 2u128
}

/// A fresh random task id: the 128 bits of a version 4 UUID from
/// `uuid::Uuid::new_v4` (`as_u128`, big-endian). The other 122 bits are
/// random, and nothing is stated of them.
#[verifier::external_body]
fn random_task_id() -> (r: u128)
    ensures
        is_v4_id(r),
{
    uuid::Uuid::new_v4().as_u128()
}

impl Task {
    /// A task with a fresh random id.
    pub fn new(priority: u8, kind: TaskKind, reaction: ReactionDefinitionId) -> (r: Task)
        ensures
            r.priority == priority,
            r.kind == kind,
            r.reaction == reaction,
            is_v4_id(r.id),
    {
        let id = random_task_id();
        Task { id, priority, kind, reaction }
    }
}

} // verus!

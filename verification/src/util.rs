//! Small utilities of the core: string hashing, seeded random number
//! generators, and a list of places handed out and given back.
use vstd::prelude::*;
use rand::{RngCore, SeedableRng};
use rand_xorshift::XorShiftRng;
use sha2::{Digest, Sha256};
use crate::math::Vec3i;
use vstd::string::StringSliceAdditionalSpecFns;

verus! {

/// The 64 bit FNV-1a hash of `bytes`.
pub open spec fn fnv1a(bytes: Seq<u8>) -> u64
    decreases bytes.len(),
{
    if bytes.len() == 0 {
        0xcbf2_9ce4_8422_2325u64
    } else {
        (fnv1a(bytes.drop_last()) ^ (bytes.last() as u64)).wrapping_mul(0x0100_0000_01b3u64)
    }
}

/// The 64 bit FNV-1a hash of the UTF-8 bytes of `s`.
pub fn fnv_hash(s: &str) -> (r: u64)
    ensures
        r == fnv1a(s.spec_bytes()),
{
    let bytes = s.as_bytes();
    let mut hash: u64 = 0xcbf2_9ce4_8422_2325;
    let mut i: usize = 0;
    while i < bytes.len()
        invariant
            bytes@ == s.spec_bytes(),
            i <= bytes@.len(),
            hash == fnv1a(bytes@.subrange(0, i as int)),
        decreases bytes@.len() - i,
    {
        proof {
            let next = bytes@.subrange(0, i + 1);
            assert(next.drop_last() == bytes@.subrange(0, i as int));
            assert(next.last() == bytes@[i as int]);
        }
        hash = hash ^ (bytes[i] as u64);
        hash = hash.wrapping_mul(0x0100_0000_01b3);
        i = i + 1;
    }
    proof {
        assert(bytes@.subrange(0, bytes@.len() as int) == bytes@);
    }
    hash
}

/// The SHA-256 digest of `data`.
pub uninterp spec fn sha256_digest(data: Seq<u8>) -> Seq<u8>;

/// `Sha256::digest` of the `sha2` crate: the 32 byte SHA-256 digest of
/// `data`. The contract names the digest and states its length.
#[verifier::external_body]
fn sha256(data: &[u8]) -> (r: Vec<u8>)
    ensures
        r@ == sha256_digest(data@),
        r@.len() == 32,
{
    Sha256::digest(data).to_vec()
}

#[verifier::external_type_specification]
#[verifier::external_body]
pub struct ExXorShiftRng(XorShiftRng);

/// The four 32 bit words `x`, `y`, `z`, `w` of an xorshift generator's state.
pub uninterp spec fn xorshift_state(rng: XorShiftRng) -> (u32, u32, u32, u32);

/// The little-endian 32 bit word made of the four bytes of `b` from `4 * k` on.
pub open spec fn le_word(b: Seq<u8>, k: int) -> u32 {
    (b[4 * k] + 256 * b[4 * k + 1] + 65536 * b[4 * k + 2] + 16777216 * b[4 * k + 3]) as u32
}

/// The state an xorshift generator is seeded into by the 16 bytes `seed`:
/// four little-endian words, replaced by four words `0x0BAD5EED` when all
/// are zero.
pub open spec fn seed_words(seed: Seq<u8>) -> (u32, u32, u32, u32) {
    let s = (le_word(seed, 0), le_word(seed, 1), le_word(seed, 2), le_word(seed, 3));
    if s.0 == 0 && s.1 == 0 && s.2 == 0 && s.3 == 0 {
        (0x0BAD_5EEDu32, 0x0BAD_5EEDu32, 0x0BAD_5EEDu32, 0x0BAD_5EEDu32)
    } else {
        s
    }
}

/// The next output of an xorshift generator in state `s`.
pub open spec fn xorshift_next(s: (u32, u32, u32, u32)) -> u32 {
    let t: u32 = s.0 ^ (s.0 << 11u32);
    s.3 ^ (s.3 >> 19u32) ^ (t ^ (t >> 8u32))
}

/// The state after one output: the words move down and the output comes in last.
pub open spec fn xorshift_step(s: (u32, u32, u32, u32)) -> (u32, u32, u32, u32) {
    (s.1, s.2, s.3, xorshift_next(s))
}

/// The state after four outputs; its words are those four outputs, in order.
pub open spec fn xorshift_step4(s: (u32, u32, u32, u32)) -> (u32, u32, u32, u32) {
    xorshift_step(xorshift_step(xorshift_step(xorshift_step(s))))
}

/// The four little-endian bytes of `v`.
pub open spec fn le_bytes(v: u32) -> Seq<u8> {
    seq![(v % 256) as u8, ((v / 256) % 256) as u8, ((v / 65536) % 256) as u8, (v / 16777216) as u8]
}

/// The 16 bytes that four outputs `s` fill in: each word little-endian, in order.
pub open spec fn state_bytes(s: (u32, u32, u32, u32)) -> Seq<u8> {
    le_bytes(s.0) + le_bytes(s.1) + le_bytes(s.2) + le_bytes(s.3)
}

/// `XorShiftRng::from_seed` of the `rand_xorshift` crate: a generator whose
/// state is the four little-endian words of `seed`, or four words
/// `0x0BAD5EED` when those are all zero.
#[verifier::external_body]
fn xorshift_from_seed(seed: [u8; 16]) -> (r: XorShiftRng)
    ensures
        xorshift_state(r) == seed_words(seed@),
{
    XorShiftRng::from_seed(seed)
}

/// `RngCore::fill_bytes` of a `rand_xorshift::XorShiftRng` into 16 bytes:
/// the generator gives four outputs (two `next_u64`, each of two
/// `next_u32`), and the bytes are those outputs little-endian, in order.
#[verifier::external_body]
fn xorshift_bytes(rng: &mut XorShiftRng) -> (r: [u8; 16])
    ensures
        xorshift_state(*final(rng)) == xorshift_step4(xorshift_state(*old(rng))),
        r@ == state_bytes(xorshift_step4(xorshift_state(*old(rng)))),
{
    let mut seed: [u8; 16] = [0; 16];
    rng.fill_bytes(&mut seed);
    seed
}

/// A generator of seeded random number generators.
pub struct Random {
    rng: XorShiftRng,
}

impl Random {
    /// The state of the generator that seeds the ones made.
    pub closed spec fn spec_state(&self) -> (u32, u32, u32, u32) {
        xorshift_state(self.rng)
    }

    /// A generator seeded by the first 16 bytes of the SHA-256 digest of `seed`.
    pub fn new(seed: &str) -> (r: Random)
        ensures
            r.spec_state() == seed_words(sha256_digest(seed.spec_bytes()).subrange(0, 16)),
    {
        Random { rng: xorshift_from_seed(Random::seed_from_string(seed)) }
    }

    /// A new generator, seeded by the next 16 bytes of this one (four
    /// outputs), which advances by those four outputs.
    pub fn make(&mut self) -> (r: XorShiftRng)
        ensures
            final(self).spec_state() == xorshift_step4(old(self).spec_state()),
            xorshift_state(r) == seed_words(state_bytes(xorshift_step4(old(self).spec_state()))),
    {
        let seed = xorshift_bytes(&mut self.rng);
        xorshift_from_seed(seed)
    }

    /// The first 16 bytes of the SHA-256 digest of the UTF-8 bytes of `seed`.
    pub fn seed_from_string(seed: &str) -> (r: [u8; 16])
        ensures
            r@ == sha256_digest(seed.spec_bytes()).subrange(0, 16),
    {
        let digest = sha256(seed.as_bytes());
        let mut final_seed: [u8; 16] = [0; 16];
        let mut i: usize = 0;
        while i < 16
            invariant
                digest@ == sha256_digest(seed.spec_bytes()),
                digest@.len() == 32,
                i <= 16,
                forall|j: int| 0 <= j < i ==> final_seed@[j] == digest@[j],
            decreases 16 - i,
        {
            final_seed[i] = digest[i];
            i = i + 1;
        }
        proof {
            assert(final_seed@ =~= digest@.subrange(0, 16));
        }
        final_seed
    }
}

/// Why a place could not be given back.
#[derive(Debug, Clone, Copy, PartialEq, Eq, Structural)]
pub enum FreeListError {
    /// The place was not handed out by this list.
    NotConsumed(Vec3i),
}

/// Places to hand out: those free, in order, and those handed out, each
/// once.
#[derive(Clone)]
pub struct FreeList {
    free: Vec<Vec3i>,
    consumed: Vec<Vec3i>,
}

impl FreeList {
    pub closed spec fn spec_free(&self) -> Seq<Vec3i> {
        self.free@
    }

    pub closed spec fn spec_consumed(&self) -> Set<Vec3i> {
        self.consumed@.to_set()
    }

    /// Each place handed out is recorded once.
    pub closed spec fn wf(&self) -> bool {
        self.consumed@.no_duplicates()
    }

    /// A list with `items` free and nothing handed out.
    pub fn from_items(items: Vec<Vec3i>) -> (r: FreeList)
        ensures
            r.wf(),
            r.spec_free() == items@,
            r.spec_consumed() == Set::<Vec3i>::empty(),
    {
        let r = FreeList { free: items, consumed: Vec::new() };
        proof {
            assert(r.consumed@.to_set() =~= Set::<Vec3i>::empty());
        }
        r
    }

    /// The position of `v` among the places handed out.
    fn find_consumed(&self, v: Vec3i) -> (r: Option<usize>)
        ensures
            match r {
                Some(i) => i < self.consumed@.len() && self.consumed@[i as int] == v,
                None => !self.consumed@.contains(v),
            },
    {
        let mut i: usize = 0;
        while i < self.consumed.len()
            invariant
                i <= self.consumed@.len(),
                forall|j: int| 0 <= j < i ==> self.consumed@[j] != v,
            decreases self.consumed@.len() - i,
        {
            if self.consumed[i] == v {
                return Some(i);
            }
            i = i + 1;
        }
        None
    }

    /// Records `v` as handed out.
    fn consume(&mut self, v: Vec3i)
        requires
            old(self).wf(),
        ensures
            final(self).wf(),
            final(self).spec_consumed() == old(self).spec_consumed().insert(v),
            final(self).free == old(self).free,
    {
        match self.find_consumed(v) {
            Some(_) => {
                proof {
                    assert(self.consumed@.to_set().insert(v) =~= self.consumed@.to_set());
                }
            },
            None => {
                let ghost before = self.consumed@;
                self.consumed.push(v);
                proof {
                    assert(self.consumed@.to_set() =~= before.to_set().insert(v)) by {
                        assert forall|x: Vec3i| self.consumed@.contains(x) <==> (before.contains(x) || x == v) by {
                            if self.consumed@.contains(x) {
                                let j = choose|j: int| 0 <= j < self.consumed@.len() && self.consumed@[j] == x;
                                if j < before.len() {
                                    assert(before[j] == x);
                                }
                            }
                            if before.contains(x) {
                                let j = choose|j: int| 0 <= j < before.len() && before[j] == x;
                                assert(self.consumed@[j] == x);
                            }
                            if x == v {
                                assert(self.consumed@[before.len() as int] == x);
                            }
                        }
                    }
                    vstd::seq_lib::seq_to_set_is_finite(self.consumed@);
                    assert(self.consumed@.no_duplicates()) by {
                        assert forall|a: int, b: int| 0 <= a < self.consumed@.len() && 0 <= b < self.consumed@.len() && a != b
                            implies self.consumed@[a] != self.consumed@[b] by {
                            if a < before.len() && b < before.len() {
                            } else if a < before.len() {
                                assert(before.contains(before[a]));
                            } else if b < before.len() {
                                assert(before.contains(before[b]));
                            }
                        }
                    }
                }
            },
        }
    }

    /// Hands out the last free place.
    pub fn pop(&mut self) -> (r: Option<Vec3i>)
        requires
            old(self).wf(),
        ensures
            final(self).wf(),
            match r {
                Some(v) => old(self).spec_free().len() > 0 && v == old(self).spec_free().last()
                    && final(self).spec_free() == old(self).spec_free().drop_last()
                    && final(self).spec_consumed() == old(self).spec_consumed().insert(v),
                None => old(self).spec_free().len() == 0 && final(self).spec_free() == old(self).spec_free()
                    && final(self).spec_consumed() == old(self).spec_consumed(),
            },
    {
        match self.free.pop() {
            Some(v) => {
                self.consume(v);
                Some(v)
            },
            None => None,
        }
    }

    /// Hands out the first free place equal to `v`, if there is one.
    pub fn take(&mut self, v: Vec3i) -> (r: Option<Vec3i>)
        requires
            old(self).wf(),
        ensures
            final(self).wf(),
            match r {
                Some(x) => x == v && exists|i: int|
                    0 <= i < old(self).spec_free().len() && old(self).spec_free()[i] == v && (forall|j: int|
                        0 <= j < i ==> old(self).spec_free()[j] != v) && final(self).spec_free()
                        == old(self).spec_free().remove(i),
                None => !old(self).spec_free().contains(v) && final(self).spec_free() == old(self).spec_free(),
            },
            r is Some ==> final(self).spec_consumed() == old(self).spec_consumed().insert(v),
            r is None ==> final(self).spec_consumed() == old(self).spec_consumed(),
    {
        let mut i: usize = 0;
        while i < self.free.len()
            invariant
                i <= self.free@.len(),
                self.wf(),
                self.free@ == old(self).free@,
                self.consumed@ == old(self).consumed@,
                forall|j: int| 0 <= j < i ==> self.free@[j] != v,
            decreases self.free@.len() - i,
        {
            if self.free[i] == v {
                let x = self.free.remove(i);
                self.consume(x);
                proof {
                    assert(old(self).free@[i as int] == v);
                    assert(self.spec_free() == old(self).spec_free().remove(i as int));
                    assert(0 <= i < old(self).spec_free().len() && old(self).spec_free()[i as int] == v && (forall|j: int|
                        0 <= j < i ==> old(self).spec_free()[j] != v) && self.spec_free() == old(self).spec_free().remove(i as int));
                }
                return Some(x);
            }
            i = i + 1;
        }
        None
    }

    /// Gives back `value`, which must have been handed out: it is free
    /// again, at the end.
    pub fn push(&mut self, value: Vec3i) -> (r: Result<(), FreeListError>)
        requires
            old(self).wf(),
        ensures
            final(self).wf(),
            old(self).spec_consumed().contains(value) ==> r is Ok && final(self).spec_free()
                == old(self).spec_free().push(value) && final(self).spec_consumed() == old(self).spec_consumed().remove(value),
            !old(self).spec_consumed().contains(value) ==> r == Err::<(), FreeListError>(FreeListError::NotConsumed(value))
                && final(self).spec_free() == old(self).spec_free() && final(self).spec_consumed() == old(self).spec_consumed(),
            old(self).spec_consumed().finite(),
            final(self).spec_consumed().finite(),
    {
        proof {
            vstd::seq_lib::seq_to_set_is_finite(self.consumed@);
        }
        match self.find_consumed(value) {
            Some(i) => {
                let ghost before = self.consumed@;
                self.consumed.remove(i);
                self.free.push(value);
                proof {
                    assert(self.consumed@.to_set() =~= before.to_set().remove(value)) by {
                        assert forall|x: Vec3i| self.consumed@.contains(x) <==> (before.contains(x) && x != value) by {
                            if self.consumed@.contains(x) {
                                let j = choose|j: int| 0 <= j < self.consumed@.len() && self.consumed@[j] == x;
                                if j < i {
                                    assert(before[j] == x);
                                } else {
                                    assert(before[j + 1] == x);
                                }
                            }
                            if before.contains(x) && x != value {
                                let j = choose|j: int| 0 <= j < before.len() && before[j] == x;
                                if j < i {
                                    assert(self.consumed@[j] == x);
                                } else {
                                    assert(self.consumed@[j - 1] == x);
                                }
                            }
                        }
                    }
                    assert(self.consumed@.no_duplicates()) by {
                        assert forall|a: int, b: int| 0 <= a < self.consumed@.len() && 0 <= b < self.consumed@.len() && a != b
                            implies self.consumed@[a] != self.consumed@[b] by {
                            let a2 = if a < i { a } else { a + 1 };
                            let b2 = if b < i { b } else { b + 1 };
                            assert(self.consumed@[a] == before[a2]);
                            assert(self.consumed@[b] == before[b2]);
                        }
                    }
                }
                Ok(())
            },
            None => {
                proof {
                    assert(!self.consumed@.to_set().contains(value));
                }
                Err(FreeListError::NotConsumed(value))
            },
        }
    }

    /// The free places, then those handed out.
    pub fn iter(&self) -> (r: Vec<Vec3i>)
        requires
            self.wf(),
        ensures
            r@.subrange(0, self.spec_free().len() as int) == self.spec_free(),
            r@.subrange(self.spec_free().len() as int, r@.len() as int).to_set() == self.spec_consumed(),
            r@.subrange(self.spec_free().len() as int, r@.len() as int).no_duplicates(),
    {
        let mut r = self.free.clone();
        let mut i: usize = 0;
        while i < self.consumed.len()
            invariant
                i <= self.consumed@.len(),
                r@ == self.free@ + self.consumed@.subrange(0, i as int),
            decreases self.consumed@.len() - i,
        {
            r.push(self.consumed[i]);
            proof {
                assert(self.consumed@.subrange(0, i + 1) == self.consumed@.subrange(0, i as int).push(self.consumed@[i as int]));
            }
            i = i + 1;
        }
        proof {
            assert(self.consumed@.subrange(0, self.consumed@.len() as int) == self.consumed@);
            assert(r@.subrange(0, self.free@.len() as int) == self.free@);
            assert(r@.subrange(self.free@.len() as int, r@.len() as int) == self.consumed@);
        }
        r
    }

    /// The free places, in order.
    pub fn iter_free(&self) -> (r: Vec<Vec3i>)
        ensures
            r@ == self.spec_free(),
    {
        self.free.clone()
    }

    /// The places handed out, each once.
    pub fn iter_consumed(&self) -> (r: Vec<Vec3i>)
        requires
            self.wf(),
        ensures
            r@.to_set() == self.spec_consumed(),
            r@.no_duplicates(),
    {
        self.consumed.clone()
    }

    pub fn has_free(&self) -> (r: bool)
        ensures
            r == (self.spec_free().len() > 0),
    {
        !self.free.is_empty()
    }

    pub fn has_consumed(&self) -> (r: bool)
        requires
            self.wf(),
        ensures
            r == !self.spec_consumed().is_empty(),
    {
        proof {
            self.lemma_consumed_len();
        }
        !self.consumed.is_empty()
    }

    /// The number of places, free or handed out.
    pub fn len(&self) -> (r: usize)
        requires
            self.wf(),
            self.spec_free().len() + self.spec_consumed().len() <= usize::MAX,
        ensures
            r == self.spec_free().len() + self.spec_consumed().len(),
    {
        proof {
            self.lemma_consumed_len();
        }
        self.free.len() + self.consumed.len()
    }

    pub fn is_empty(&self) -> (r: bool)
        requires
            self.wf(),
        ensures
            r == (self.spec_free().len() == 0 && self.spec_consumed().is_empty()),
    {
        proof {
            self.lemma_consumed_len();
        }
        self.free.len() == 0 && self.consumed.len() == 0
    }

    pub fn consumed_len(&self) -> (r: usize)
        requires
            self.wf(),
        ensures
            r == self.spec_consumed().len(),
    {
        proof {
            self.lemma_consumed_len();
        }
        self.consumed.len()
    }

    pub fn free_len(&self) -> (r: usize)
        ensures
            r == self.spec_free().len(),
    {
        self.free.len()
    }

    /// The set handed out has one element per recorded place.
    proof fn lemma_consumed_len(&self)
        requires
            self.wf(),
        ensures
            self.spec_consumed().len() == self.consumed@.len(),
            self.spec_consumed().is_empty() <==> self.consumed@.len() == 0,
    {
        self.consumed@.unique_seq_to_set();
        if self.consumed@.len() > 0 {
            assert(self.consumed@.to_set().contains(self.consumed@[0]));
        }
    }
}

impl FreeList {
    /// Finitely many places are handed out at any time.
    pub proof fn lemma_consumed_finite(&self)
        ensures
            self.spec_consumed().finite(),
    {
        vstd::seq_lib::seq_to_set_is_finite(self.consumed@);
    }
}

/// Giving back the place just handed out by `pop` leaves the free places
/// as they were, and the ones handed out too.
pub proof fn lemma_pop_then_push(free: Seq<Vec3i>, consumed: Set<Vec3i>)
    requires
        free.len() > 0,
        !consumed.contains(free.last()),
    ensures
        free.drop_last().push(free.last()) == free,
        consumed.insert(free.last()).remove(free.last()) == consumed,
{
    assert(free.drop_last().push(free.last()) =~= free);
    assert(consumed.insert(free.last()).remove(free.last()) =~= consumed);
}

} // verus!

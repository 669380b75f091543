use rand::RngCore;
use rl_core::math::Vec3i;
use rl_core::util::{fnv_hash, FreeList, FreeListError, Random};

#[test]
fn fnv_hash_matches_reference_values() {
    assert_eq!(fnv_hash(""), 0xcbf2_9ce4_8422_2325);
    assert_eq!(fnv_hash("a"), 0xaf63_dc4c_8601_ec8c);
    assert_eq!(fnv_hash("foobar"), 0x85944171f73967e8);
}

#[test]
fn seed_is_start_of_sha256() {
    let seed = Random::seed_from_string("abc");
    assert_eq!(
        seed,
        [0xba, 0x78, 0x16, 0xbf, 0x8f, 0x01, 0xcf, 0xea, 0x41, 0x41, 0x40, 0xde, 0x5d, 0xae, 0x22, 0x23]
    );
}

#[test]
fn random_generators_are_reproducible() {
    let mut a = Random::new("world");
    let mut b = Random::new("world");
    assert_eq!(a.make().next_u64(), b.make().next_u64());
}

fn xorshift_step(s: [u32; 4]) -> [u32; 4] {
    let t = s[0] ^ (s[0] << 11);
    [s[1], s[2], s[3], s[3] ^ (s[3] >> 19) ^ (t ^ (t >> 8))]
}

fn le_words(b: &[u8]) -> [u32; 4] {
    let w = |k: usize| u32::from_le_bytes([b[4 * k], b[4 * k + 1], b[4 * k + 2], b[4 * k + 3]]);
    [w(0), w(1), w(2), w(3)]
}

#[test]
fn made_generator_is_seeded_by_four_outputs() {
    let seed = [0xba, 0x78, 0x16, 0xbf, 0x8f, 0x01, 0xcf, 0xea, 0x41, 0x41, 0x40, 0xde, 0x5d, 0xae, 0x22, 0x23];
    let mut state = le_words(&seed);
    for _ in 0..4 {
        state = xorshift_step(state);
    }
    let mut bytes = Vec::new();
    for w in state.iter() {
        bytes.extend_from_slice(&w.to_le_bytes());
    }
    let made = xorshift_step(le_words(&bytes));
    let mut random = Random::new("abc");
    assert_eq!(random.make().next_u32(), made[3]);
    let next = xorshift_step(xorshift_step(xorshift_step(xorshift_step(state))));
    let mut bytes = Vec::new();
    for w in next.iter() {
        bytes.extend_from_slice(&w.to_le_bytes());
    }
    assert_eq!(random.make().next_u32(), xorshift_step(le_words(&bytes))[3]);
}

#[test]
fn free_list_hands_out_and_takes_back() {
    let tiles = vec![Vec3i::new(0, 0, 0), Vec3i::new(1, 0, 0), Vec3i::new(2, 0, 0)];
    let mut l = FreeList::from_items(tiles);
    assert_eq!(l.len(), 3);
    assert!(l.has_free());
    assert!(!l.has_consumed());
    let v = l.pop().unwrap();
    assert_eq!(v, Vec3i::new(2, 0, 0));
    assert_eq!(l.free_len(), 2);
    assert_eq!(l.consumed_len(), 1);
    assert_eq!(l.len(), 3);
    assert_eq!(l.take(Vec3i::new(0, 0, 0)), Some(Vec3i::new(0, 0, 0)));
    assert_eq!(l.take(Vec3i::new(0, 0, 0)), None);
    assert_eq!(l.iter_free(), vec![Vec3i::new(1, 0, 0)]);
    assert_eq!(l.push(Vec3i::new(5, 5, 5)), Err(FreeListError::NotConsumed(Vec3i::new(5, 5, 5))));
    assert_eq!(l.push(v), Ok(()));
    assert_eq!(l.iter_free(), vec![Vec3i::new(1, 0, 0), Vec3i::new(2, 0, 0)]);
    assert_eq!(l.iter_consumed(), vec![Vec3i::new(0, 0, 0)]);
    assert_eq!(l.iter().len(), 3);
    assert!(!l.is_empty());
}

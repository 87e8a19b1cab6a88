use key_optimizer::id::KeyId;
use key_optimizer::layout::LayoutState;
use key_optimizer::optimize::{pick_swap_pair, unlocked_keys};
use rand::rngs::SmallRng;
use rand::SeedableRng;

#[test]
fn unlocked_keys_are_sorted_and_exclude_locked() {
    let mut s = LayoutState::new();
    for (k, c) in [(5, 'a'), (2, 'b'), (9, 'c'), (7, 'd')] {
        s.insert(KeyId::new(k), c);
    }
    let ids = unlocked_keys(&s, &[KeyId::new(9), KeyId::new(100)]);
    assert_eq!(ids, vec![KeyId(2), KeyId(5), KeyId(7)]);
    assert_eq!(unlocked_keys(&s, &[]).len(), 4);
}

#[test]
fn swap_pairs_are_two_different_keys() {
    let ids = vec![KeyId(1), KeyId(2), KeyId(3)];
    let mut rng = SmallRng::seed_from_u64(42);
    for _ in 0..200 {
        let (a, b) = pick_swap_pair(&mut rng, &ids);
        assert_ne!(a, b);
        assert!(ids.contains(&a) && ids.contains(&b));
    }
    let two = vec![KeyId(8), KeyId(9)];
    let (a, b) = pick_swap_pair(&mut rng, &two);
    assert_ne!(a, b);
}

#[test]
fn same_seed_gives_same_pairs() {
    let ids: Vec<KeyId> = (0..10).map(KeyId).collect();
    let mut r1 = SmallRng::seed_from_u64(7);
    let mut r2 = SmallRng::seed_from_u64(7);
    for _ in 0..20 {
        assert_eq!(pick_swap_pair(&mut r1, &ids), pick_swap_pair(&mut r2, &ids));
    }
}

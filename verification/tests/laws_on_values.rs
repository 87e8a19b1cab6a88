use key_optimizer::chars::{is_countable, is_whitespace, to_lower};
use key_optimizer::id::{CharId, KeyId};
use key_optimizer::layout::LayoutState;
use key_optimizer::optimize::{finish_step, pick_swap_pair, settle_pair, unlocked_keys};
use key_optimizer::stats::Frequency;
use rand::rngs::SmallRng;
use rand::SeedableRng;

#[test]
fn lowercasing_and_countable_characters() {
    assert_eq!(to_lower('A'), 'a');
    assert_eq!(to_lower('a'), 'a');
    assert_eq!(to_lower('Ä'), 'ä');
    assert_eq!(to_lower(' '), ' ');
    assert!(is_countable(' '));
    assert!(is_countable('q'));
    assert!(is_countable('ж'));
    assert!(!is_countable('1'));
    assert!(!is_countable(';'));
    assert!(!is_countable('\t'));
}

#[test]
fn every_count_is_at_most_the_total() {
    let mut f = Frequency::new();
    for c in "the quick brown fox".chars() {
        f.record(CharId::new(c));
    }
    let total = f.total();
    assert_eq!(total, 19);
    for (c, n) in f.pairs() {
        assert!(n <= total, "{:?}", c);
    }
    assert_eq!(f.max_count(), 3);
}

#[test]
fn annealing_swaps_never_move_locked_keys() {
    let mut s = LayoutState::new();
    let letters = "abcdefghij";
    for (i, c) in letters.chars().enumerate() {
        s.insert(KeyId::new(i), c);
    }
    let locked = [KeyId::new(0), KeyId::new(5)];
    let ids = unlocked_keys(&s, &locked);
    let mut rng = SmallRng::seed_from_u64(3);
    for _ in 0..500 {
        let (a, b) = pick_swap_pair(&mut rng, &ids);
        s.swap(a, b);
    }
    assert_eq!(s.get(KeyId::new(0)), Some('a'));
    assert_eq!(s.get(KeyId::new(5)), Some('f'));
    // The swaps only rearranged the characters.
    let mut chars: Vec<char> = s.pairs().into_iter().map(|(_, c)| c).collect();
    chars.sort();
    assert_eq!(chars.into_iter().collect::<String>(), letters);
    assert_eq!(s.len(), 10);
}

#[test]
fn swaps_keep_repeated_characters() {
    let mut s = LayoutState::new();
    for (i, c) in "aabbbc".chars().enumerate() {
        s.insert(KeyId::new(i), c);
    }
    s.swap(KeyId::new(0), KeyId::new(5));
    s.swap(KeyId::new(1), KeyId::new(2));
    s.swap(KeyId::new(3), KeyId::new(0));
    assert_eq!(s.get(KeyId::new(0)), Some('b'));
    assert_eq!(s.get(KeyId::new(3)), Some('c'));
    assert_eq!(s.get(KeyId::new(5)), Some('a'));
    let mut chars: Vec<char> = s.pairs().into_iter().map(|(_, c)| c).collect();
    chars.sort();
    assert_eq!(chars.into_iter().collect::<String>(), "aabbbc");
}

#[test]
fn whitespace_is_the_unicode_white_space_set() {
    for c in [' ', '\t', '\n', '\r', '\u{0B}', '\u{0C}', '\u{85}', '\u{A0}', '\u{2003}', '\u{2028}', '\u{3000}'] {
        assert!(is_whitespace(c), "{:?}", c);
        assert_eq!(is_whitespace(c), c.is_whitespace());
    }
    for c in ['a', '1', '_', '\u{200B}', '\u{FEFF}', '\u{180E}'] {
        assert!(!is_whitespace(c), "{:?}", c);
        assert_eq!(is_whitespace(c), c.is_whitespace());
    }
}

#[test]
fn settled_pair_takes_the_second_draw_or_the_next_key() {
    let ids = [KeyId::new(4), KeyId::new(7), KeyId::new(9)];
    assert_eq!(settle_pair(&ids, 0, 2), (KeyId::new(4), KeyId::new(9)));
    assert_eq!(settle_pair(&ids, 2, 1), (KeyId::new(9), KeyId::new(7)));
    assert_eq!(settle_pair(&ids, 1, 1), (KeyId::new(7), KeyId::new(9)));
    assert_eq!(settle_pair(&ids, 2, 2), (KeyId::new(9), KeyId::new(4)));
}

#[test]
fn finishing_a_step_keeps_reverts_or_records_the_best() {
    let mut state = LayoutState::new();
    for (i, c) in "abc".chars().enumerate() {
        state.insert(KeyId::new(i), c);
    }
    let mut best = state.clone();
    // Rejected: the trial swap is undone and the best layout stays.
    state.swap(KeyId::new(0), KeyId::new(1));
    finish_step(&mut state, &mut best, KeyId::new(0), KeyId::new(1), false, false);
    assert_eq!(state.get(KeyId::new(0)), Some('a'));
    assert_eq!(state.get(KeyId::new(1)), Some('b'));
    // Accepted without improvement: the swap stays, the best does not move.
    state.swap(KeyId::new(1), KeyId::new(2));
    finish_step(&mut state, &mut best, KeyId::new(1), KeyId::new(2), true, false);
    assert_eq!(state.get(KeyId::new(1)), Some('c'));
    assert_eq!(best.get(KeyId::new(1)), Some('b'));
    // Accepted and better: the current layout becomes the best.
    state.swap(KeyId::new(0), KeyId::new(2));
    finish_step(&mut state, &mut best, KeyId::new(0), KeyId::new(2), true, true);
    assert_eq!(best.get(KeyId::new(0)), Some('b'));
    assert_eq!(best.get(KeyId::new(1)), Some('c'));
    assert_eq!(best.get(KeyId::new(2)), Some('a'));
}

#[test]
fn annealing_run_keeps_locked_keys_in_current_and_best() {
    let mut state = LayoutState::new();
    let letters = "abcdefgh";
    for (i, c) in letters.chars().enumerate() {
        state.insert(KeyId::new(i), c);
    }
    let locked = [KeyId::new(2)];
    let ids = unlocked_keys(&state, &locked);
    let mut best = state.clone();
    let mut rng = SmallRng::seed_from_u64(11);
    for step in 0..300 {
        let (a, b) = pick_swap_pair(&mut rng, &ids);
        state.swap(a, b);
        finish_step(&mut state, &mut best, a, b, step % 3 != 0, step % 7 == 0);
    }
    for s in [&state, &best] {
        assert_eq!(s.get(KeyId::new(2)), Some('c'));
        let mut chars: Vec<char> = s.pairs().into_iter().map(|(_, c)| c).collect();
        chars.sort();
        assert_eq!(chars.into_iter().collect::<String>(), letters);
    }
}

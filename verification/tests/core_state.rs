use key_optimizer::id::{CharId, KeyId};
use key_optimizer::layout::LayoutState;
use key_optimizer::stats::{Frequency, LanguageStats};

fn layout(pairs: &[(usize, char)]) -> LayoutState {
    let mut s = LayoutState::new();
    for &(k, c) in pairs {
        s.insert(KeyId::new(k), c);
    }
    s
}

#[test]
fn ids_round_trip() {
    assert_eq!(KeyId::new(42).as_usize(), 42);
    assert_eq!(KeyId::new(7), KeyId(7));
    assert_eq!(CharId::new('q').as_char(), 'q');
    assert_eq!(CharId::new(' '), CharId(' '));
}

#[test]
fn insert_replaces_existing_key() {
    let mut s = layout(&[(1, 'a'), (2, 'b')]);
    s.insert(KeyId::new(1), 'z');
    assert_eq!(s.get(KeyId::new(1)), Some('z'));
    assert_eq!(s.get(KeyId::new(2)), Some('b'));
    assert_eq!(s.get(KeyId::new(3)), None);
    assert_eq!(s.len(), 2);
}

#[test]
fn swap_exchanges_two_mapped_keys() {
    let mut s = layout(&[(1, 'a'), (2, 'b'), (3, 'c')]);
    s.swap(KeyId::new(1), KeyId::new(3));
    assert_eq!(s.get(KeyId::new(1)), Some('c'));
    assert_eq!(s.get(KeyId::new(3)), Some('a'));
    assert_eq!(s.get(KeyId::new(2)), Some('b'));
    assert_eq!(s.len(), 3);
}

#[test]
fn swap_with_unmapped_key_changes_nothing() {
    let mut s = layout(&[(1, 'a'), (2, 'b')]);
    s.swap(KeyId::new(1), KeyId::new(9));
    assert_eq!(s.get(KeyId::new(1)), Some('a'));
    assert_eq!(s.get(KeyId::new(9)), None);
    s.swap(KeyId::new(9), KeyId::new(2));
    assert_eq!(s.get(KeyId::new(2)), Some('b'));
    assert_eq!(s.len(), 2);
}

#[test]
fn swap_twice_restores_layout() {
    let mut s = layout(&[(1, 'a'), (2, 'b'), (3, 'c')]);
    s.swap(KeyId::new(2), KeyId::new(3));
    s.swap(KeyId::new(2), KeyId::new(3));
    assert_eq!(s.pairs(), vec![(KeyId(1), 'a'), (KeyId(2), 'b'), (KeyId(3), 'c')]);
    s.swap(KeyId::new(1), KeyId::new(1));
    assert_eq!(s.get(KeyId::new(1)), Some('a'));
}

#[test]
fn swap_order_of_arguments_does_not_matter() {
    let mut a = layout(&[(1, 'a'), (2, 'b')]);
    let mut b = a.clone();
    a.swap(KeyId::new(1), KeyId::new(2));
    b.swap(KeyId::new(2), KeyId::new(1));
    assert_eq!(a.get(KeyId::new(1)), b.get(KeyId::new(1)));
    assert_eq!(a.get(KeyId::new(2)), b.get(KeyId::new(2)));
}

#[test]
fn frequency_counts_and_total() {
    let mut f = Frequency::new();
    assert_eq!(f.total(), 0);
    assert_eq!(f.max_count(), 1);
    for c in "hello".chars() {
        f.record(CharId::new(c));
    }
    assert_eq!(f.count(CharId::new('l')), 2);
    assert_eq!(f.count(CharId::new('h')), 1);
    assert_eq!(f.count(CharId::new('z')), 0);
    assert_eq!(f.get(CharId::new('z')), None);
    assert_eq!(f.get(CharId::new('o')), Some(1));
    assert_eq!(f.total(), 5);
    assert_eq!(f.max_count(), 2);
    assert_eq!(f.pairs().len(), 4);
}

#[test]
fn frequency_total_overflow_is_reported() {
    let mut f = Frequency::default();
    f.set_count(CharId::new('a'), u64::MAX);
    assert_eq!(f.checked_total(), Some(u64::MAX));
    f.set_count(CharId::new('b'), 1);
    assert_eq!(f.checked_total(), None);
    assert_eq!(f.max_count(), u64::MAX);
}

#[test]
fn language_stats_unigrams_and_bigrams() {
    let mut s = LanguageStats::default();
    let a = CharId::new('a');
    let b = CharId::new('b');
    s.record_unigram(a);
    s.record_unigram(b);
    s.record_bigram(a, b);
    s.record_bigram(a, b);
    s.record_bigram(b, a);
    assert_eq!(s.total_events(), 2);
    assert_eq!(s.bigram_count(a, b), 2);
    assert_eq!(s.bigram_count(b, a), 1);
    assert_eq!(s.bigram_count(b, b), 0);
    assert_eq!(s.bigram_pairs().len(), 2);
    s.set_bigram_count(b, b, 7);
    assert_eq!(s.bigram_count(b, b), 7);
    let t = s.clone();
    assert_eq!(t.unigrams.count(a), 1);
    assert_eq!(t.bigram_count(a, b), 2);
}

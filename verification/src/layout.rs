//! Which character each key currently produces.
use vstd::prelude::*;
use vstd::multiset::Multiset;

use crate::assoc::{assoc_map, has_key, keys_unique, lemma_assoc_at, lemma_assoc_empty, lemma_assoc_len, lemma_assoc_push, lemma_assoc_update};
use crate::id::KeyId;
use crate::lists::copy_list;

verus! {

/// Mapping from a `KeyId` to the character it currently produces.
///
/// The pairs are kept in the order their keys were first inserted; no key
/// occurs twice.
///
/// The pairs are walked from first to last by `pairs`, which the letter table
/// and the optimiser read, so they come out in the same order on every run.
#[derive(Debug)]
pub struct LayoutState {
    mapping: Vec<(KeyId, char)>,
}

/// The mapping after swapping the characters on keys `a` and `b`: when both
/// keys are mapped their characters trade places, otherwise nothing changes.
pub open spec fn swap_spec(m: Map<KeyId, char>, a: KeyId, b: KeyId) -> Map<KeyId, char> {
    if m.contains_key(a) && m.contains_key(b) {
        m.insert(a, m[b]).insert(b, m[a])
    } else {
        m
    }
}

impl View for LayoutState {
    type V = Map<KeyId, char>;

    closed spec fn view(&self) -> Map<KeyId, char> {
        assoc_map(self.mapping@)
    }
}

impl LayoutState {
    /// No key is recorded twice.
    pub closed spec fn wf(&self) -> bool {
        keys_unique(self.mapping@)
    }

    /// An empty layout.
    pub fn new() -> (r: Self)
        ensures
            r.wf(),
            r@ == Map::<KeyId, char>::empty(),
    {
        let r = LayoutState { mapping: Vec::new() };
        proof {
            lemma_assoc_empty(r.mapping@);
        }
        r
    }

    /// Position of `k` in the pair list, if it is there.
    fn position(&self, k: KeyId) -> (r: Option<usize>)
        requires
            self.wf(),
        ensures
            match r {
                Some(i) => i < self.mapping@.len() && self.mapping@[i as int].0 == k,
                None => !has_key(self.mapping@, k),
            },
    {
        let n = self.mapping.len();
        let mut i: usize = 0;
        while i < n
            invariant
                n == self.mapping@.len(),
                i <= n,
                forall|j: int| 0 <= j < i ==> self.mapping@[j].0 != k,
            decreases n - i,
        {
            if self.mapping[i].0 == k {
                return Some(i);
            }
            i += 1;
        }
        None
    }

    /// The character on key `k`, if the key is mapped.
    pub fn get(&self, k: KeyId) -> (r: Option<char>)
        requires
            self.wf(),
        ensures
            r == (if self@.contains_key(k) {
                Some(self@[k])
            } else {
                None::<char>
            }),
    {
        match self.position(k) {
            Some(i) => {
                proof {
                    lemma_assoc_at(self.mapping@, i as int);
                }
                Some(self.mapping[i].1)
            },
            None => None,
        }
    }

    /// Map key `k` to `c`, replacing what it produced before.
    pub fn insert(&mut self, k: KeyId, c: char)
        requires
            old(self).wf(),
        ensures
            final(self).wf(),
            final(self)@ == old(self)@.insert(k, c),
    {
        match self.position(k) {
            Some(i) => {
                proof {
                    lemma_assoc_update(self.mapping@, i as int, c);
                }
                self.mapping.set(i, (k, c));
            },
            None => {
                proof {
                    lemma_assoc_push(self.mapping@, k, c);
                }
                self.mapping.push((k, c));
            },
        }
    }

    /// Swap the characters on two keys. Nothing changes unless both keys are
    /// mapped.
    pub fn swap(&mut self, a: KeyId, b: KeyId)
        requires
            old(self).wf(),
        ensures
            final(self).wf(),
            final(self)@ == swap_spec(old(self)@, a, b),
            final(self)@.dom() == old(self)@.dom(),
            char_multiset(final(self)@) == char_multiset(old(self)@),
    {
        proof {
            lemma_assoc_len(self.mapping@);
            law_swap_keeps_character_multiset(self@, a, b);
        }
        let ca = self.get(a);
        let cb = self.get(b);
        match (ca, cb) {
            (Some(ca), Some(cb)) => {
                self.insert(a, cb);
                self.insert(b, ca);
            },
            _ => {},
        }
    }

    /// All `(key, character)` pairs, each key once.
    pub fn pairs(&self) -> (r: Vec<(KeyId, char)>)
        requires
            self.wf(),
        ensures
            keys_unique(r@),
            assoc_map(r@) == self@,
    {
        let mut r: Vec<(KeyId, char)> = Vec::new();
        let n = self.mapping.len();
        for i in 0..n
            invariant
                n == self.mapping@.len(),
                r@ == self.mapping@.subrange(0, i as int),
        {
            r.push(self.mapping[i]);
        }
        assert(r@ == self.mapping@);
        r
    }

    /// Number of mapped keys.
    pub fn len(&self) -> (r: usize)
        requires
            self.wf(),
        ensures
            r == self@.dom().len(),
    {
        proof {
            lemma_assoc_len(self.mapping@);
        }
        self.mapping.len()
    }
}

impl Clone for LayoutState {
    fn clone(&self) -> (r: Self)
        ensures
            r@ == self@,
            r.wf() == self.wf(),
    {
        LayoutState { mapping: copy_list(&self.mapping) }
    }
}

/// Swapping the same two keys twice restores the layout.
pub proof fn law_swap_involutive(m: Map<KeyId, char>, a: KeyId, b: KeyId)
    ensures
        swap_spec(swap_spec(m, a, b), a, b) == m,
{
    if m.contains_key(a) && m.contains_key(b) {
        assert(swap_spec(swap_spec(m, a, b), a, b) =~= m);
    }
}

/// Swapping `a` with `b` is the same as swapping `b` with `a`.
pub proof fn law_swap_symmetric(m: Map<KeyId, char>, a: KeyId, b: KeyId)
    ensures
        swap_spec(m, a, b) == swap_spec(m, b, a),
{
    if m.contains_key(a) && m.contains_key(b) {
        assert(swap_spec(m, a, b) =~= swap_spec(m, b, a));
    }
}

/// Swapping a key with itself changes nothing.
pub proof fn law_swap_self(m: Map<KeyId, char>, a: KeyId)
    ensures
        swap_spec(m, a, a) == m,
{
    if m.contains_key(a) {
        assert(swap_spec(m, a, a) =~= m);
    }
}

/// A swap keeps the set of mapped keys and the set of characters on them.
pub proof fn law_swap_keeps_keys_and_characters(m: Map<KeyId, char>, a: KeyId, b: KeyId)
    ensures
        swap_spec(m, a, b).dom() == m.dom(),
        swap_spec(m, a, b).values() == m.values(),
{
    let s = swap_spec(m, a, b);
    if m.contains_key(a) && m.contains_key(b) {
        assert(s.dom() =~= m.dom());
        assert forall|c: char| s.values().contains(c) implies m.values().contains(c) by {
            let k = choose|k: KeyId| #[trigger] s.dom().contains(k) && s[k] == c;
            if k == b {
                assert(m[a] == c);
            } else if k == a {
                assert(m[b] == c);
            } else {
                assert(m[k] == c);
            }
        }
        assert forall|c: char| m.values().contains(c) implies s.values().contains(c) by {
            let k = choose|k: KeyId| #[trigger] m.dom().contains(k) && m[k] == c;
            if k == a {
                assert(s[b] == c);
            } else if k == b {
                if a == b {
                    assert(s[b] == c);
                } else {
                    assert(s[a] == c);
                }
            } else {
                assert(s[k] == c);
            }
        }
        assert(s.values() =~= m.values());
    }
}

/// The keys of `m` that carry character `c`.
pub open spec fn keys_with(m: Map<KeyId, char>, c: char) -> Set<KeyId> {
    m.dom().filter(|k: KeyId| m[k] == c)
}

/// How many keys of `m` carry character `c`.
pub open spec fn char_count(m: Map<KeyId, char>, c: char) -> nat {
    keys_with(m, c).len()
}

/// A swap keeps how many keys carry each character: the layout stays a
/// permutation of the same multiset of characters.
pub proof fn law_swap_keeps_character_counts(m: Map<KeyId, char>, a: KeyId, b: KeyId, c: char)
    requires
        m.dom().finite(),
    ensures
        swap_spec(m, a, b).dom().finite(),
        char_count(swap_spec(m, a, b), c) == char_count(m, c),
{
    let s = swap_spec(m, a, b);
    law_swap_keeps_keys_and_characters(m, a, b);
    let before = keys_with(m, c);
    let after = keys_with(s, c);
    m.dom().lemma_len_filter(|k: KeyId| m[k] == c);
    if m.contains_key(a) && m.contains_key(b) && a != b && m[a] != m[b] {
        if c == m[a] {
            assert(after =~= before.remove(a).insert(b));
            assert(before.remove(a).insert(b).len() == before.len());
        } else if c == m[b] {
            assert(after =~= before.remove(b).insert(a));
            assert(before.remove(b).insert(a).len() == before.len());
        } else {
            assert(after =~= before);
        }
    } else {
        assert(s =~= m);
        assert(after =~= before);
    }
}

/// The characters of `m` with their multiplicities: each character counts
/// once for every key that carries it.
pub open spec fn char_multiset(m: Map<KeyId, char>) -> Multiset<char> {
    Multiset::from_map(Map::new(|c: char| m.values().contains(c), |c: char| char_count(m, c)))
}

/// A swap keeps the multiset of characters on the layout, so the layout stays
/// a permutation of the characters it had.
pub proof fn law_swap_keeps_character_multiset(m: Map<KeyId, char>, a: KeyId, b: KeyId)
    requires
        m.dom().finite(),
    ensures
        swap_spec(m, a, b).dom().finite(),
        char_multiset(swap_spec(m, a, b)) == char_multiset(m),
{
    broadcast use vstd::multiset::group_multiset_axioms;

    let s = swap_spec(m, a, b);
    law_swap_keeps_keys_and_characters(m, a, b);
    vstd::map_lib::lemma_values_finite(m);
    let counts_m = Map::new(|c: char| m.values().contains(c), |c: char| char_count(m, c));
    let counts_s = Map::new(|c: char| s.values().contains(c), |c: char| char_count(s, c));
    assert(counts_m.dom() =~= m.values());
    assert(counts_s.dom() =~= s.values());
    assert forall|c: char| char_multiset(s).count(c) == char_multiset(m).count(c) by {
        law_swap_keeps_character_counts(m, a, b, c);
        if m.values().contains(c) {
            assert(counts_s.dom().contains(c));
            assert(counts_m.dom().contains(c));
        }
    }
    assert(char_multiset(s) =~= char_multiset(m));
}

/// Every other key keeps its character across a swap, and when both keys are
/// mapped each ends up with the other's former character.
pub proof fn law_swap_moves_only_the_two_keys(m: Map<KeyId, char>, a: KeyId, b: KeyId, k: KeyId)
    requires
        m.contains_key(k),
    ensures
        k != a && k != b ==> swap_spec(m, a, b)[k] == m[k],
        m.contains_key(a) && m.contains_key(b) ==> swap_spec(m, a, b)[a] == m[b] && swap_spec(
            m,
            a,
            b,
        )[b] == m[a],
{
}

} // verus!

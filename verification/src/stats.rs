//! Unigram and bigram frequency counts.
use vstd::prelude::*;

use crate::assoc::{
    assoc_map, has_key, keys_unique, lemma_assoc_at, lemma_assoc_empty, lemma_assoc_push,
    lemma_assoc_update,
};
use crate::id::CharId;
use crate::lists::copy_list;

verus! {

/// Sum of the counts in a list of `(key, count)` pairs.
pub open spec fn count_sum<K>(s: Seq<(K, u64)>) -> int
    decreases s.len(),
{
    if s.len() == 0 {
        0
    } else {
        count_sum(s.drop_last()) + s.last().1
    }
}

/// Largest count in the list, or 0 when it is empty.
pub open spec fn count_max<K>(s: Seq<(K, u64)>) -> int
    decreases s.len(),
{
    if s.len() == 0 {
        0
    } else {
        let m = count_max(s.drop_last());
        if s.last().1 > m {
            s.last().1 as int
        } else {
            m
        }
    }
}

proof fn lemma_count_sum_push<K>(s: Seq<(K, u64)>, x: (K, u64))
    ensures
        count_sum(s.push(x)) == count_sum(s) + x.1,
{
    assert(s.push(x).drop_last() =~= s);
}

proof fn lemma_count_sum_update<K>(s: Seq<(K, u64)>, i: int, x: (K, u64))
    requires
        0 <= i < s.len(),
    ensures
        count_sum(s.update(i, x)) == count_sum(s) - s[i].1 + x.1,
    decreases s.len(),
{
    let t = s.update(i, x);
    if i == s.len() - 1 {
        assert(t.drop_last() =~= s.drop_last());
    } else {
        lemma_count_sum_update(s.drop_last(), i, x);
        assert(t.drop_last() =~= s.drop_last().update(i, x));
    }
}

/// Every single count is at most the sum of all counts.
proof fn lemma_count_le_sum<K>(s: Seq<(K, u64)>, i: int)
    requires
        0 <= i < s.len(),
    ensures
        s[i].1 <= count_sum(s),
        count_sum(s) >= 0,
    decreases s.len(),
{
    lemma_count_sum_nonneg(s.drop_last());
    if i < s.len() - 1 {
        lemma_count_le_sum(s.drop_last(), i);
    }
}

proof fn lemma_count_sum_nonneg<K>(s: Seq<(K, u64)>)
    ensures
        count_sum(s) >= 0,
    decreases s.len(),
{
    if s.len() > 0 {
        lemma_count_sum_nonneg(s.drop_last());
    }
}

proof fn lemma_count_max_bounds<K>(s: Seq<(K, u64)>)
    ensures
        forall|i: int| 0 <= i < s.len() ==> s[i].1 <= count_max(s),
        count_max(s) == 0 || exists|i: int| 0 <= i < s.len() && s[i].1 == count_max(s),
        count_max(s) >= 0,
    decreases s.len(),
{
    if s.len() > 0 {
        let t = s.drop_last();
        lemma_count_max_bounds(t);
        assert forall|i: int| 0 <= i < s.len() implies s[i].1 <= count_max(s) by {
            if i < t.len() {
                assert(s[i] == t[i]);
            }
        }
        if count_max(s) != 0 {
            if s.last().1 > count_max(t) {
                assert(s[s.len() - 1].1 == count_max(s));
            } else {
                let i = choose|i: int| 0 <= i < t.len() && t[i].1 == count_max(t);
                assert(s[i] == t[i]);
            }
        }
    }
}

/// Frequency counts for a single language: how often each character was
/// typed.
///
/// The counts are a list of `(character, count)` entries, each character
/// once, in the order the characters were first counted; `total` and the
/// letter-frequency table walk it from first entry to last.
#[derive(Debug)]
pub struct Frequency {
    counts: Vec<(CharId, u64)>,
}

impl View for Frequency {
    type V = Map<CharId, u64>;

    closed spec fn view(&self) -> Map<CharId, u64> {
        assoc_map(self.counts@)
    }
}

impl Frequency {
    /// No character is counted in two places.
    pub closed spec fn wf(&self) -> bool {
        keys_unique(self.counts@)
    }

    /// Sum of all counts.
    pub closed spec fn total_spec(&self) -> int {
        count_sum(self.counts@)
    }

    /// Number of times `ch` was recorded (0 when never).
    pub open spec fn count_spec(&self, ch: CharId) -> u64 {
        if self@.contains_key(ch) {
            self@[ch]
        } else {
            0
        }
    }

    /// No counts at all.
    pub fn new() -> (r: Self)
        ensures
            r.wf(),
            r@ == Map::<CharId, u64>::empty(),
            r.total_spec() == 0,
    {
        let r = Frequency { counts: Vec::new() };
        proof {
            lemma_assoc_empty(r.counts@);
        }
        r
    }

    fn position(&self, ch: CharId) -> (r: Option<usize>)
        requires
            self.wf(),
        ensures
            match r {
                Some(i) => i < self.counts@.len() && self.counts@[i as int].0 == ch,
                None => !has_key(self.counts@, ch),
            },
    {
        let n = self.counts.len();
        let mut i: usize = 0;
        while i < n
            invariant
                n == self.counts@.len(),
                i <= n,
                forall|j: int| 0 <= j < i ==> self.counts@[j].0 != ch,
            decreases n - i,
        {
            if self.counts[i].0 == ch {
                return Some(i);
            }
            i += 1;
        }
        None
    }

    /// Count one more occurrence of `ch`.
    pub fn record(&mut self, ch: CharId)
        requires
            old(self).wf(),
            old(self).count_spec(ch) < u64::MAX,
        ensures
            final(self).wf(),
            final(self)@ == old(self)@.insert(ch, (old(self).count_spec(ch) + 1) as u64),
            final(self).total_spec() == old(self).total_spec() + 1,
    {
        match self.position(ch) {
            Some(i) => {
                let c = self.counts[i].1;
                proof {
                    lemma_assoc_at(self.counts@, i as int);
                    lemma_assoc_update(self.counts@, i as int, (c + 1) as u64);
                    lemma_count_sum_update(self.counts@, i as int, (ch, (c + 1) as u64));
                }
                self.counts.set(i, (ch, c + 1));
            },
            None => {
                proof {
                    lemma_assoc_push(self.counts@, ch, 1u64);
                    lemma_count_sum_push(self.counts@, (ch, 1u64));
                }
                self.counts.push((ch, 1));
            },
        }
    }

    /// Set the count of `ch` to `n` (used when loading saved counts).
    pub fn set_count(&mut self, ch: CharId, n: u64)
        requires
            old(self).wf(),
        ensures
            final(self).wf(),
            final(self)@ == old(self)@.insert(ch, n),
            final(self).total_spec() == old(self).total_spec() - old(self).count_spec(ch) + n,
    {
        match self.position(ch) {
            Some(i) => {
                proof {
                    lemma_assoc_at(self.counts@, i as int);
                    lemma_assoc_update(self.counts@, i as int, n);
                    lemma_count_sum_update(self.counts@, i as int, (ch, n));
                }
                self.counts.set(i, (ch, n));
            },
            None => {
                proof {
                    lemma_assoc_push(self.counts@, ch, n);
                    lemma_count_sum_push(self.counts@, (ch, n));
                }
                self.counts.push((ch, n));
            },
        }
    }

    /// The count of `ch`, if it has one.
    pub fn get(&self, ch: CharId) -> (r: Option<u64>)
        requires
            self.wf(),
        ensures
            r == (if self@.contains_key(ch) {
                Some(self@[ch])
            } else {
                None::<u64>
            }),
    {
        match self.position(ch) {
            Some(i) => {
                proof {
                    lemma_assoc_at(self.counts@, i as int);
                }
                Some(self.counts[i].1)
            },
            None => None,
        }
    }

    /// Number of times `ch` was recorded.
    pub fn count(&self, ch: CharId) -> (r: u64)
        requires
            self.wf(),
        ensures
            r == self.count_spec(ch),
    {
        match self.position(ch) {
            Some(i) => {
                proof {
                    lemma_assoc_at(self.counts@, i as int);
                }
                self.counts[i].1
            },
            None => 0,
        }
    }

    /// Sum of all counts, or `None` when it does not fit in a `u64`.
    pub fn checked_total(&self) -> (r: Option<u64>)
        ensures
            match r {
                Some(t) => t == self.total_spec(),
                None => self.total_spec() > u64::MAX,
            },
    {
        let n = self.counts.len();
        let mut sum: u64 = 0;
        for i in 0..n
            invariant
                n == self.counts@.len(),
                sum == count_sum(self.counts@.subrange(0, i as int)),
        {
            let c = self.counts[i].1;
            proof {
                let s = self.counts@.subrange(0, i + 1);
                assert(s.drop_last() =~= self.counts@.subrange(0, i as int));
            }
            match sum.checked_add(c) {
                Some(t) => {
                    sum = t;
                },
                None => {
                    proof {
                        lemma_count_sum_prefix_grows(self.counts@, i + 1);
                    }
                    return None;
                },
            }
        }
        assert(self.counts@.subrange(0, n as int) =~= self.counts@);
        Some(sum)
    }

    /// Sum of all counts.
    pub fn total(&self) -> (r: u64)
        requires
            self.total_spec() <= u64::MAX,
        ensures
            r == self.total_spec(),
    {
        match self.checked_total() {
            Some(t) => t,
            None => 0,
        }
    }

    /// The largest count, at least 1 (the divisor of the heat map).
    pub fn max_count(&self) -> (r: u64)
        requires
            self.wf(),
        ensures
            r >= 1,
            forall|c: CharId| #[trigger] self@.contains_key(c) ==> self@[c] <= r,
            r == 1 || exists|c: CharId| #[trigger] self@.contains_key(c) && self@[c] == r,
    {
        let n = self.counts.len();
        let mut best: u64 = 0;
        for i in 0..n
            invariant
                n == self.counts@.len(),
                best == count_max(self.counts@.subrange(0, i as int)),
        {
            proof {
                let s = self.counts@.subrange(0, i + 1);
                assert(s.drop_last() =~= self.counts@.subrange(0, i as int));
            }
            if self.counts[i].1 > best {
                best = self.counts[i].1;
            }
        }
        proof {
            assert(self.counts@.subrange(0, n as int) =~= self.counts@);
            lemma_count_max_bounds(self.counts@);
            assert forall|c: CharId| #[trigger] self@.contains_key(c) implies self@[c] <= best
                && self@[c] <= if best >= 1 {
                best
            } else {
                1
            } by {
                let i = choose|i: int| 0 <= i < self.counts@.len() && #[trigger] self.counts@[i].0 == c;
                lemma_assoc_at(self.counts@, i);
            }
            if best > 1 {
                let i = choose|i: int| 0 <= i < self.counts@.len() && self.counts@[i].1 == best;
                lemma_assoc_at(self.counts@, i);
                assert(self@.contains_key(self.counts@[i].0));
            }
        }
        if best >= 1 {
            best
        } else {
            1
        }
    }

    /// All `(character, count)` pairs, each character once.
    pub fn pairs(&self) -> (r: Vec<(CharId, u64)>)
        requires
            self.wf(),
        ensures
            keys_unique(r@),
            assoc_map(r@) == self@,
            count_sum(r@) == self.total_spec(),
    {
        let mut r: Vec<(CharId, u64)> = Vec::new();
        let n = self.counts.len();
        for i in 0..n
            invariant
                n == self.counts@.len(),
                r@ == self.counts@.subrange(0, i as int),
        {
            r.push(self.counts[i]);
        }
        assert(r@ == self.counts@);
        r
    }
}

proof fn lemma_count_sum_prefix_grows<K>(s: Seq<(K, u64)>, j: int)
    requires
        0 <= j <= s.len(),
    ensures
        count_sum(s.subrange(0, j)) <= count_sum(s),
    decreases s.len() - j,
{
    if j < s.len() {
        lemma_count_sum_prefix_grows(s, j + 1);
        let t = s.subrange(0, j + 1);
        assert(t.drop_last() =~= s.subrange(0, j));
    } else {
        assert(s.subrange(0, j) =~= s);
    }
}

impl Clone for Frequency {
    fn clone(&self) -> (r: Self)
        ensures
            r@ == self@,
            r.wf() == self.wf(),
            r.total_spec() == self.total_spec(),
    {
        Frequency { counts: copy_list(&self.counts) }
    }
}

impl Default for Frequency {
    fn default() -> (r: Self)
        ensures
            r.wf(),
            r@ == Map::<CharId, u64>::empty(),
            r.total_spec() == 0,
    {
        Frequency::new()
    }
}

/// Each count of a well-formed frequency table is at most the total.
pub proof fn law_count_le_total(f: Frequency, ch: CharId)
    requires
        f.wf(),
    ensures
        f.count_spec(ch) <= f.total_spec(),
        f.total_spec() >= 0,
{
    lemma_count_sum_nonneg(f.counts@);
    if f@.contains_key(ch) {
        let i = choose|i: int| 0 <= i < f.counts@.len() && #[trigger] f.counts@[i].0 == ch;
        lemma_assoc_at(f.counts@, i);
        lemma_count_le_sum(f.counts@, i);
    }
}

/// Unigram + bigram statistics for a language.
///
/// Bigram counts are a list of `((first, second), count)` entries, each
/// character pair once, in the order the pairs were first seen.
#[derive(Debug)]
pub struct LanguageStats {
    pub unigrams: Frequency,
    pub bigrams: Vec<((CharId, CharId), u64)>,
}

impl LanguageStats {
    /// Both tables are well formed.
    pub open spec fn wf(&self) -> bool {
        &&& self.unigrams.wf()
        &&& keys_unique(self.bigrams@)
    }

    /// Bigram counts: how often the second character followed the first.
    pub closed spec fn bigrams_spec(&self) -> Map<(CharId, CharId), u64> {
        assoc_map(self.bigrams@)
    }

    /// Number of times `b` was recorded right after `a` (0 when never).
    pub open spec fn bigram_count_spec(&self, a: CharId, b: CharId) -> u64 {
        if self.bigrams_spec().contains_key((a, b)) {
            self.bigrams_spec()[(a, b)]
        } else {
            0
        }
    }

    /// No statistics at all.
    pub fn new() -> (r: Self)
        ensures
            r.wf(),
            r.unigrams@ == Map::<CharId, u64>::empty(),
            r.unigrams.total_spec() == 0,
            r.bigrams_spec() == Map::<(CharId, CharId), u64>::empty(),
    {
        let r = LanguageStats { unigrams: Frequency::new(), bigrams: Vec::new() };
        proof {
            lemma_assoc_empty(r.bigrams@);
        }
        r
    }

    /// Count one more occurrence of `ch`.
    pub fn record_unigram(&mut self, ch: CharId)
        requires
            old(self).wf(),
            old(self).unigrams.count_spec(ch) < u64::MAX,
        ensures
            final(self).wf(),
            final(self).unigrams@ == old(self).unigrams@.insert(
                ch,
                (old(self).unigrams.count_spec(ch) + 1) as u64,
            ),
            final(self).unigrams.total_spec() == old(self).unigrams.total_spec() + 1,
            final(self).bigrams_spec() == old(self).bigrams_spec(),
    {
        self.unigrams.record(ch);
    }

    fn bigram_position(&self, a: CharId, b: CharId) -> (r: Option<usize>)
        requires
            self.wf(),
        ensures
            match r {
                Some(i) => i < self.bigrams@.len() && self.bigrams@[i as int].0 == (a, b),
                None => !has_key(self.bigrams@, (a, b)),
            },
    {
        let n = self.bigrams.len();
        let mut i: usize = 0;
        while i < n
            invariant
                n == self.bigrams@.len(),
                i <= n,
                forall|j: int| 0 <= j < i ==> self.bigrams@[j].0 != (a, b),
            decreases n - i,
        {
            let (k, _) = self.bigrams[i];
            if k.0 == a && k.1 == b {
                return Some(i);
            }
            i += 1;
        }
        None
    }

    /// Count one more occurrence of `b` typed right after `a`.
    pub fn record_bigram(&mut self, a: CharId, b: CharId)
        requires
            old(self).wf(),
            old(self).bigram_count_spec(a, b) < u64::MAX,
        ensures
            final(self).wf(),
            final(self).bigrams_spec() == old(self).bigrams_spec().insert(
                (a, b),
                (old(self).bigram_count_spec(a, b) + 1) as u64,
            ),
            final(self).unigrams == old(self).unigrams,
    {
        match self.bigram_position(a, b) {
            Some(i) => {
                let c = self.bigrams[i].1;
                proof {
                    lemma_assoc_at(self.bigrams@, i as int);
                    lemma_assoc_update(self.bigrams@, i as int, (c + 1) as u64);
                }
                self.bigrams.set(i, ((a, b), c + 1));
            },
            None => {
                proof {
                    lemma_assoc_push(self.bigrams@, (a, b), 1u64);
                }
                self.bigrams.push(((a, b), 1));
            },
        }
    }

    /// Set the count of the bigram `(a, b)` to `n` (used when loading saved
    /// counts).
    pub fn set_bigram_count(&mut self, a: CharId, b: CharId, n: u64)
        requires
            old(self).wf(),
        ensures
            final(self).wf(),
            final(self).bigrams_spec() == old(self).bigrams_spec().insert((a, b), n),
            final(self).unigrams == old(self).unigrams,
    {
        match self.bigram_position(a, b) {
            Some(i) => {
                proof {
                    lemma_assoc_update(self.bigrams@, i as int, n);
                }
                self.bigrams.set(i, ((a, b), n));
            },
            None => {
                proof {
                    lemma_assoc_push(self.bigrams@, (a, b), n);
                }
                self.bigrams.push(((a, b), n));
            },
        }
    }

    /// Number of times `b` was recorded right after `a`.
    pub fn bigram_count(&self, a: CharId, b: CharId) -> (r: u64)
        requires
            self.wf(),
        ensures
            r == self.bigram_count_spec(a, b),
    {
        match self.bigram_position(a, b) {
            Some(i) => {
                proof {
                    lemma_assoc_at(self.bigrams@, i as int);
                }
                self.bigrams[i].1
            },
            None => 0,
        }
    }

    /// All `((first, second), count)` bigram pairs, each bigram once.
    pub fn bigram_pairs(&self) -> (r: Vec<((CharId, CharId), u64)>)
        requires
            self.wf(),
        ensures
            keys_unique(r@),
            assoc_map(r@) == self.bigrams_spec(),
    {
        let mut r: Vec<((CharId, CharId), u64)> = Vec::new();
        let n = self.bigrams.len();
        for i in 0..n
            invariant
                n == self.bigrams@.len(),
                r@ == self.bigrams@.subrange(0, i as int),
        {
            r.push(self.bigrams[i]);
        }
        assert(r@ == self.bigrams@);
        r
    }

    /// Total number of recorded unigram events.
    pub fn total_events(&self) -> (r: u64)
        requires
            self.unigrams.total_spec() <= u64::MAX,
        ensures
            r == self.unigrams.total_spec(),
    {
        self.unigrams.total()
    }
}

impl Clone for LanguageStats {
    fn clone(&self) -> (r: Self)
        ensures
            r.unigrams@ == self.unigrams@,
            r.unigrams.total_spec() == self.unigrams.total_spec(),
            r.bigrams_spec() == self.bigrams_spec(),
            r.wf() == self.wf(),
    {
        LanguageStats { unigrams: self.unigrams.clone(), bigrams: copy_list(&self.bigrams) }
    }
}

impl Default for LanguageStats {
    fn default() -> (r: Self)
        ensures
            r.wf(),
            r.unigrams@ == Map::<CharId, u64>::empty(),
            r.unigrams.total_spec() == 0,
            r.bigrams_spec() == Map::<(CharId, CharId), u64>::empty(),
    {
        LanguageStats::new()
    }
}

} // verus!

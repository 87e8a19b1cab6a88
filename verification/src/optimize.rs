//! The integer parts of the layout optimiser: which keys may move, and which
//! two keys a step tries to swap.
use rand::rngs::SmallRng;
use rand::Rng;
use vstd::prelude::*;

use crate::assoc::{assoc_map, has_key, keys_unique, lemma_assoc_at};
use crate::id::KeyId;
use crate::layout::{
    char_multiset, law_swap_involutive, law_swap_keeps_character_multiset,
    law_swap_keeps_keys_and_characters, swap_spec, LayoutState,
};

verus! {

/// `rand::rngs::SmallRng`, the optimiser's seeded generator. Opaque here.
#[verifier::external_type_specification]
#[verifier::external_body]
pub struct ExSmallRng(SmallRng);

/// Calls `Rng::gen_range(0..n)` on `rng`. The rand documentation promises a
/// value in the half-open range and panics only on an empty range, which the
/// precondition excludes. Which value comes out is not stated: it depends on
/// the generator's state.
#[verifier::external_body]
fn gen_index(rng: &mut SmallRng, n: usize) -> (r: usize)
    requires
        n > 0,
    ensures
        r < n,
{
    rng.gen_range(0..n)
}

/// Key ids strictly increase along the sequence.
pub open spec fn ids_increasing(s: Seq<KeyId>) -> bool {
    forall|i: int, j: int| 0 <= i < j < s.len() ==> s[i].0 < s[j].0
}

/// The keys the optimiser may move: every mapped key that is not locked, in
/// increasing id order.
pub fn unlocked_keys(state: &LayoutState, locked: &[KeyId]) -> (r: Vec<KeyId>)
    requires
        state.wf(),
    ensures
        ids_increasing(r@),
        forall|k: KeyId| #[trigger] r@.contains(k) <==> state@.contains_key(k) && !locked@.contains(k),
{
    let pairs = state.pairs();
    let n = pairs.len();
    let mut out: Vec<KeyId> = Vec::new();
    for i in 0..n
        invariant
            n == pairs@.len(),
            keys_unique(pairs@),
            assoc_map(pairs@) == state@,
            ids_increasing(out@),
            forall|k: KeyId| #[trigger]
                out@.contains(k) <==> (exists|b: int| 0 <= b < i && #[trigger] pairs@[b].0 == k)
                    && !locked@.contains(k),
    {
        let k = pairs[i].0;
        let mut is_locked = false;
        let mut t: usize = 0;
        while t < locked.len()
            invariant
                t <= locked@.len(),
                is_locked == (exists|c: int| 0 <= c < t && locked@[c] == k),
            decreases locked@.len() - t,
        {
            if locked[t] == k {
                is_locked = true;
            }
            t += 1;
        }
        let ghost before = out@;
        proof {
            assert(is_locked == locked@.contains(k));
            assert forall|a: int| 0 <= a < before.len() implies before[a] != k by {
                assert(before.contains(before[a]));
                let b = choose|b: int| 0 <= b < i && #[trigger] pairs@[b].0 == before[a];
                assert(pairs@[b].0 != pairs@[i as int].0);
            }
        }
        if !is_locked {
            let mut j: usize = 0;
            while j < out.len() && out[j].0 < k.0
                invariant
                    j <= out@.len(),
                    forall|a: int| 0 <= a < j ==> #[trigger] out@[a].0 < k.0,
                decreases out@.len() - j,
            {
                j += 1;
            }
            out.insert(j, k);
            proof {
                let s = out@;
                assert forall|a: int, c: int| 0 <= a < c < s.len() implies s[a].0 < s[c].0 by {
                    if c < j {
                        assert(s[a] == before[a] && s[c] == before[c]);
                    } else if c == j {
                        assert(s[a] == before[a]);
                    } else if a < j {
                        assert(s[a] == before[a] && s[c] == before[c - 1]);
                        assert(before[j as int].0 >= k.0 && before[j as int] != k);
                    } else if a == j {
                        assert(s[c] == before[c - 1]);
                        assert(before[j as int].0 >= k.0 && before[j as int] != k);
                        if c - 1 > j {
                            assert(before[j as int].0 < before[c - 1].0);
                        }
                    } else {
                        assert(s[a] == before[a - 1] && s[c] == before[c - 1]);
                    }
                }
                assert forall|x: KeyId| #[trigger] s.contains(x) <==> before.contains(x) || x == k by {
                    if s.contains(x) {
                        let a = choose|a: int| 0 <= a < s.len() && s[a] == x;
                        if a < j {
                            assert(before[a] == x);
                        } else if a > j {
                            assert(before[a - 1] == x);
                        }
                    }
                    if before.contains(x) {
                        let a = choose|a: int| 0 <= a < before.len() && before[a] == x;
                        if a < j {
                            assert(s[a] == x);
                        } else {
                            assert(s[a + 1] == x);
                        }
                    }
                    if x == k {
                        assert(s[j as int] == x);
                    }
                }
            }
        }
        proof {
            assert forall|x: KeyId| #[trigger]
                out@.contains(x) <==> (exists|b: int| 0 <= b < i + 1 && #[trigger] pairs@[b].0 == x)
                    && !locked@.contains(x) by {
                if exists|b: int| 0 <= b < i + 1 && #[trigger] pairs@[b].0 == x {
                    let b = choose|b: int| 0 <= b < i + 1 && #[trigger] pairs@[b].0 == x;
                    if b < i {
                        assert(exists|b2: int| 0 <= b2 < i && #[trigger] pairs@[b2].0 == x);
                    }
                }
                if exists|b: int| 0 <= b < i && #[trigger] pairs@[b].0 == x {
                    let b = choose|b: int| 0 <= b < i && #[trigger] pairs@[b].0 == x;
                    assert(0 <= b < i + 1);
                }
                if x == k {
                    assert(pairs@[i as int].0 == x);
                }
            }
        }
    }
    proof {
        assert forall|x: KeyId| #[trigger]
            out@.contains(x) <==> state@.contains_key(x) && !locked@.contains(x) by {
            if state@.contains_key(x) {
                assert(has_key(pairs@, x));
                let b = choose|b: int| 0 <= b < pairs@.len() && #[trigger] pairs@[b].0 == x;
                assert(pairs@[b].0 == x);
            }
            if exists|b: int| 0 <= b < n && #[trigger] pairs@[b].0 == x {
                let b = choose|b: int| 0 <= b < n && #[trigger] pairs@[b].0 == x;
                lemma_assoc_at(pairs@, b);
            }
        }
    }
    out
}

/// The position a step swaps with the first one, given the first draw
/// `idx_a` and the last draw `idx_b` of the second among `n` positions: the
/// second draw when it differs from the first, else the next position
/// (wrapping).
pub open spec fn settled_second(n: int, idx_a: int, idx_b: int) -> int {
    if idx_b != idx_a {
        idx_b
    } else if idx_a + 1 < n {
        idx_a + 1
    } else {
        0
    }
}

/// The two keys a step swaps, from the drawn positions `idx_a` and `idx_b`:
/// the key at `idx_a`, and the key at `idx_b` when it is another position,
/// else the key after `idx_a` (wrapping).
pub fn settle_pair(ids: &[KeyId], idx_a: usize, idx_b: usize) -> (r: (KeyId, KeyId))
    requires
        ids@.len() >= 2,
        idx_a < ids@.len(),
        idx_b < ids@.len(),
    ensures
        r == (ids@[idx_a as int], ids@[settled_second(ids@.len() as int, idx_a as int, idx_b as int)]),
        settled_second(ids@.len() as int, idx_a as int, idx_b as int) != idx_a,
{
    let n = ids.len();
    let second = if idx_b != idx_a {
        idx_b
    } else if idx_a + 1 < n {
        idx_a + 1
    } else {
        0
    };
    (ids[idx_a], ids[second])
}

/// Draw the two keys a step tries to swap: two different positions of
/// `ids`, each drawn with `gen_range(0..ids.len())`, the first once and the
/// second until it differs from the first. After `u64::MAX` equal draws in a
/// row the second position is the one after the first (wrapping), so the
/// step always gets two positions.
pub fn pick_swap_pair(rng: &mut SmallRng, ids: &[KeyId]) -> (r: (KeyId, KeyId))
    requires
        ids@.len() >= 2,
    ensures
        exists|a: int, b: int|
            0 <= a < ids@.len() && 0 <= b < ids@.len() && #[trigger] settled_second(
                ids@.len() as int,
                a,
                b,
            ) != a && r == (ids@[a], ids@[settled_second(ids@.len() as int, a, b)]),
        exists|a: int, b: int|
            0 <= a < ids@.len() && 0 <= b < ids@.len() && a != b && #[trigger] ids@[a] == r.0
                && #[trigger] ids@[b] == r.1,
{
    let n = ids.len();
    let idx_a = gen_index(rng, n);
    let mut idx_b = gen_index(rng, n);
    let mut draws: u64 = 0;
    while idx_b == idx_a && draws < u64::MAX
        invariant
            idx_a < n,
            idx_b < n,
            n == ids@.len(),
        decreases u64::MAX - draws,
    {
        idx_b = gen_index(rng, n);
        draws += 1;
    }
    let r = settle_pair(ids, idx_a, idx_b);
    proof {
        let j = settled_second(n as int, idx_a as int, idx_b as int);
        assert(settled_second(ids@.len() as int, idx_a as int, idx_b as int) != idx_a as int);
        assert(ids@[idx_a as int] == r.0 && ids@[j] == r.1);
    }
    r
}

/// The layout after applying the swaps in `swaps`, first to last.
pub open spec fn apply_swaps(m: Map<KeyId, char>, swaps: Seq<(KeyId, KeyId)>) -> Map<KeyId, char>
    decreases swaps.len(),
{
    if swaps.len() == 0 {
        m
    } else {
        let prev = apply_swaps(m, swaps.drop_last());
        swap_spec(prev, swaps.last().0, swaps.last().1)
    }
}

/// A swap of two keys that are not locked leaves every locked key with its
/// character: the optimiser, drawing its pairs from `unlocked_keys`, never
/// moves a locked key.
pub proof fn law_locked_keys_stay(
    m: Map<KeyId, char>,
    locked: Seq<KeyId>,
    a: KeyId,
    b: KeyId,
    k: KeyId,
)
    requires
        !locked.contains(a),
        !locked.contains(b),
        locked.contains(k),
    ensures
        swap_spec(m, a, b).contains_key(k) == m.contains_key(k),
        m.contains_key(k) ==> swap_spec(m, a, b)[k] == m[k],
{
}

/// Any run of swaps rearranges the layout: the same keys stay mapped and the
/// same set of characters stays on them.
pub proof fn law_swaps_rearrange(m: Map<KeyId, char>, swaps: Seq<(KeyId, KeyId)>)
    ensures
        apply_swaps(m, swaps).dom() == m.dom(),
        apply_swaps(m, swaps).values() == m.values(),
    decreases swaps.len(),
{
    if swaps.len() > 0 {
        let prev = apply_swaps(m, swaps.drop_last());
        law_swaps_rearrange(m, swaps.drop_last());
        law_swap_keeps_keys_and_characters(prev, swaps.last().0, swaps.last().1);
    }
}

/// Any run of swaps keeps the multiset of characters: the optimised layout is
/// a permutation of the characters it started with.
pub proof fn law_swaps_keep_character_multiset(m: Map<KeyId, char>, swaps: Seq<(KeyId, KeyId)>)
    requires
        m.dom().finite(),
    ensures
        apply_swaps(m, swaps).dom().finite(),
        char_multiset(apply_swaps(m, swaps)) == char_multiset(m),
    decreases swaps.len(),
{
    if swaps.len() > 0 {
        let prev = apply_swaps(m, swaps.drop_last());
        law_swaps_keep_character_multiset(m, swaps.drop_last());
        law_swap_keeps_character_multiset(prev, swaps.last().0, swaps.last().1);
    }
}

/// One annealing step after the trial swap of `a` and `b` on `state`: an
/// accepted swap stays, a rejected one is swapped back, and an accepted swap
/// that `improved` on the best score so far becomes the best layout. The two
/// decisions are the caller's, taken on the scores.
pub fn finish_step(
    state: &mut LayoutState,
    best: &mut LayoutState,
    a: KeyId,
    b: KeyId,
    accept: bool,
    improved: bool,
)
    requires
        old(state).wf(),
        old(best).wf(),
    ensures
        final(state).wf(),
        final(best).wf(),
        final(state)@ == if accept {
            old(state)@
        } else {
            swap_spec(old(state)@, a, b)
        },
        final(best)@ == if accept && improved {
            old(state)@
        } else {
            old(best)@
        },
{
    if accept {
        if improved {
            *best = state.clone();
        }
    } else {
        state.swap(a, b);
    }
}

/// What the annealing loop keeps of the layout `start` it began with, for
/// the keys in `locked`: the current layout and the best one each hold the
/// same keys as `start`, are permutations of its characters, and leave every
/// locked key with its character.
pub open spec fn anneal_keeps(
    start: Map<KeyId, char>,
    locked: Seq<KeyId>,
    state: Map<KeyId, char>,
    best: Map<KeyId, char>,
) -> bool {
    &&& start.dom().finite()
    &&& state.dom() == start.dom()
    &&& best.dom() == start.dom()
    &&& char_multiset(state) == char_multiset(start)
    &&& char_multiset(best) == char_multiset(start)
    &&& forall|k: KeyId|
        #![trigger locked.contains(k), start.contains_key(k)]
        locked.contains(k) && start.contains_key(k) ==> state[k] == start[k] && best[k] == start[k]
}

/// The loop starts out keeping its layout: before any step the current and
/// the best layout are the start.
pub proof fn law_anneal_start(start: Map<KeyId, char>, locked: Seq<KeyId>)
    requires
        start.dom().finite(),
    ensures
        anneal_keeps(start, locked, start, start),
{
}

/// Every annealing step keeps what the loop keeps: a trial swap of two
/// unlocked keys followed by `finish_step`, whatever the two decisions. A
/// rejected step also leaves the current layout exactly as it was.
pub proof fn law_anneal_step(
    start: Map<KeyId, char>,
    locked: Seq<KeyId>,
    state: Map<KeyId, char>,
    best: Map<KeyId, char>,
    a: KeyId,
    b: KeyId,
    accept: bool,
    improved: bool,
)
    requires
        anneal_keeps(start, locked, state, best),
        !locked.contains(a),
        !locked.contains(b),
    ensures
        ({
            let tried = swap_spec(state, a, b);
            let next_state = if accept {
                tried
            } else {
                swap_spec(tried, a, b)
            };
            let next_best = if accept && improved {
                tried
            } else {
                best
            };
            &&& anneal_keeps(start, locked, next_state, next_best)
            &&& !accept ==> next_state == state
        }),
{
    let tried = swap_spec(state, a, b);
    law_swap_keeps_keys_and_characters(state, a, b);
    law_swap_keeps_character_multiset(state, a, b);
    law_swap_involutive(state, a, b);
    assert forall|k: KeyId| #![trigger locked.contains(k), start.contains_key(k)]
        locked.contains(k) && start.contains_key(k) implies tried[k] == start[k] by {
        law_locked_keys_stay(state, locked, a, b, k);
    }
}

/// A step's pair follows the draws: a second draw that differs from the first
/// is the second position as drawn, so any two different positions can make
/// a pair; and the second position never equals the first.
pub proof fn law_settled_pair_follows_draws(n: int, idx_a: int, idx_b: int)
    requires
        n >= 2,
        0 <= idx_a < n,
        0 <= idx_b < n,
    ensures
        idx_b != idx_a ==> settled_second(n, idx_a, idx_b) == idx_b,
        0 <= settled_second(n, idx_a, idx_b) < n,
        settled_second(n, idx_a, idx_b) != idx_a,
{
}

} // verus!

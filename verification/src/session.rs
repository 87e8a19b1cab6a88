//! The state behind the heatmap window: the loaded keyboards, the active
//! layout, the character tables derived from it and the typing statistics.
use std::collections::HashMap;
use vstd::prelude::*;

use crate::assoc::{assoc_map, has_key, keys_unique, lemma_assoc_at, lemma_assoc_empty, lemma_assoc_push};
use crate::chars::{countable, is_countable, lower, to_lower};
use crate::id::{CharId, KeyId};
use crate::keyboard::{sortable, PhysicalKeyboard};
use crate::layout::LayoutState;
use crate::mappings::{build_mappings, char_mapping_spec, scan_mapping_spec};
use crate::stats::LanguageStats;

verus! {

broadcast use vstd::std_specs::hash::group_hash_axioms;

/// Position of the first keyboard whose id is `id`, or `ks.len()` when none
/// has it.
pub open spec fn first_id_position(ks: Seq<PhysicalKeyboard>, id: Seq<char>) -> int
    decreases ks.len(),
{
    if ks.len() == 0 {
        0
    } else if ks[0].id@ == id {
        0
    } else {
        1 + first_id_position(ks.drop_first(), id)
    }
}

/// `first_id_position` is the first position holding `id`, or the length.
pub proof fn lemma_first_id_position(ks: Seq<PhysicalKeyboard>, id: Seq<char>)
    ensures
        0 <= first_id_position(ks, id) <= ks.len(),
        forall|j: int| 0 <= j < first_id_position(ks, id) ==> #[trigger] ks[j].id@ != id,
        first_id_position(ks, id) < ks.len() ==> ks[first_id_position(ks, id)].id@ == id,
    decreases ks.len(),
{
    if ks.len() > 0 && ks[0].id@ != id {
        let t = ks.drop_first();
        lemma_first_id_position(t, id);
        assert forall|j: int| 0 <= j < first_id_position(ks, id) implies #[trigger] ks[j].id@ != id by {
            if j > 0 {
                assert(ks[j] == t[j - 1]);
            }
        }
        if first_id_position(ks, id) < ks.len() {
            assert(ks[first_id_position(ks, id)] == t[first_id_position(t, id)]);
        }
    }
}

/// Append `kb` to `list` unless a keyboard with the same id is already
/// there. Returns whether it was appended.
pub fn add_layout_if_new(list: &mut Vec<PhysicalKeyboard>, kb: PhysicalKeyboard) -> (added: bool)
    ensures
        added == (first_id_position(old(list)@, kb.id@) == old(list)@.len()),
        added ==> final(list)@ == old(list)@.push(kb),
        !added ==> final(list)@ == old(list)@,
{
    proof {
        lemma_first_id_position(list@, kb.id@);
    }
    let n = list.len();
    let mut i: usize = 0;
    while i < n && list[i].id != kb.id
        invariant
            n == list@.len(),
            i <= n,
            forall|j: int| 0 <= j < i ==> #[trigger] list@[j].id@ != kb.id@,
        decreases n - i,
    {
        i += 1;
    }
    proof {
        let f = first_id_position(list@, kb.id@);
        if f < i {
            assert(list@[f].id@ == kb.id@);
        }
        if i < n && i < f {
            assert(list@[i as int].id@ == kb.id@);
        }
    }
    if i < n {
        false
    } else {
        list.push(kb);
        true
    }
}

/// The character counted when `ch` is typed: its lowercase form, if that is
/// a space or alphabetic.
pub open spec fn recorded_char(ch: char) -> Option<CharId> {
    if countable(lower(ch)) {
        Some(CharId(lower(ch)))
    } else {
        None
    }
}

/// Some key of the layout produces a character whose lowercase form is `c`.
pub open spec fn on_layout(m: Map<KeyId, char>, c: char) -> bool {
    exists|k: KeyId| #[trigger] m.contains_key(k) && lower(m[k]) == c
}

/// Per key of the layout whose character (lowercased) has a count: that count.
pub open spec fn key_counts_spec(m: Map<KeyId, char>, counts: Map<CharId, u64>) -> Map<KeyId, u64> {
    Map::new(
        |k: KeyId| m.contains_key(k) && counts.contains_key(CharId(lower(m[k]))),
        |k: KeyId| counts[CharId(lower(m[k]))],
    )
}

/// No character occurs twice.
pub open spec fn chars_distinct(s: Seq<(char, u64)>) -> bool {
    forall|i: int, j: int| 0 <= i < j < s.len() ==> s[i].0 != s[j].0
}

/// Counts never increase along the sequence.
pub open spec fn sorted_by_count_desc(s: Seq<(char, u64)>) -> bool {
    forall|i: int, j: int| 0 <= i < j < s.len() ==> s[i].1 >= s[j].1
}

/// Insert `x` after every entry whose count is at least its own.
fn insert_by_count_desc(out: &mut Vec<(char, u64)>, x: (char, u64))
    requires
        sorted_by_count_desc(old(out)@),
        chars_distinct(old(out)@),
        forall|a: int| 0 <= a < old(out)@.len() ==> old(out)@[a].0 != x.0,
    ensures
        sorted_by_count_desc(final(out)@),
        chars_distinct(final(out)@),
        forall|e: (char, u64)| #[trigger] final(out)@.contains(e) <==> old(out)@.contains(e) || e == x,
{
    let mut j: usize = 0;
    while j < out.len() && out[j].1 >= x.1
        invariant
            j <= out@.len(),
            forall|a: int| 0 <= a < j ==> #[trigger] out@[a].1 >= x.1,
        decreases out@.len() - j,
    {
        j += 1;
    }
    let ghost before = out@;
    out.insert(j, x);
    proof {
        let s = out@;
        assert forall|a: int, c: int| 0 <= a < c < s.len() implies s[a].0 != s[c].0 && s[a].1
            >= s[c].1 by {
            if c < j {
                assert(s[a] == before[a] && s[c] == before[c]);
            } else if c == j {
                assert(s[a] == before[a]);
            } else if a < j {
                assert(s[a] == before[a] && s[c] == before[c - 1]);
                assert(before[j as int].1 < x.1);
            } else if a == j {
                assert(s[c] == before[c - 1]);
                assert(before[j as int].1 < x.1);
            } else {
                assert(s[a] == before[a - 1] && s[c] == before[c - 1]);
            }
        }
        assert forall|e: (char, u64)| #[trigger] s.contains(e) <==> before.contains(e) || e == x by {
            if s.contains(e) {
                let a = choose|a: int| 0 <= a < s.len() && s[a] == e;
                if a < j {
                    assert(before[a] == e);
                } else if a > j {
                    assert(before[a - 1] == e);
                }
            }
            if before.contains(e) {
                let a = choose|a: int| 0 <= a < before.len() && before[a] == e;
                if a < j {
                    assert(s[a] == e);
                } else {
                    assert(s[a + 1] == e);
                }
            }
            if e == x {
                assert(s[j as int] == e);
            }
        }
    }
}

/// How long the statistics may go unsaved, in nanoseconds: thirty seconds.
pub const AUTOSAVE_INTERVAL_NANOS: u128 = 30_000_000_000;

/// Whether the statistics are due to be saved, `elapsed_nanos` after the last
/// save: once more than thirty seconds have passed.
pub fn autosave_due(elapsed_nanos: u128) -> (r: bool)
    ensures
        r == (elapsed_nanos > AUTOSAVE_INTERVAL_NANOS),
{
    elapsed_nanos > AUTOSAVE_INTERVAL_NANOS
}

/// The heatmap window's state: keyboards, the active one, the tables derived
/// from its labels, and the statistics being recorded.
pub struct AppState {
    pub keyboards: Vec<PhysicalKeyboard>,
    pub current_index: usize,
    pub layout_state: LayoutState,
    pub scan_to_char: HashMap<u16, CharId>,
    pub stats: LanguageStats,
    pub previous_char: Option<CharId>,
}

impl AppState {
    /// The active keyboard exists and the tables are those of its labels.
    pub open spec fn wf(&self) -> bool {
        &&& self.current_index < self.keyboards@.len()
        &&& self.layout_state.wf()
        &&& self.stats.wf()
        &&& self.layout_state@ == char_mapping_spec(
            self.keyboards@[self.current_index as int].keys@,
        )
        &&& self.scan_to_char@ == scan_mapping_spec(
            self.keyboards@[self.current_index as int].keys@,
        )
    }

    /// Everything but the statistics and the last typed character is as in
    /// `other`.
    pub open spec fn same_layout(&self, other: &AppState) -> bool {
        &&& self.keyboards == other.keyboards
        &&& self.current_index == other.current_index
        &&& self.layout_state@ == other.layout_state@
        &&& self.layout_state.wf() == other.layout_state.wf()
        &&& self.scan_to_char@ == other.scan_to_char@
    }

    /// Start on the first keyboard with the given statistics.
    pub fn new(stats: LanguageStats, keyboards: Vec<PhysicalKeyboard>) -> (r: Self)
        requires
            keyboards@.len() > 0,
            stats.wf(),
            sortable(keyboards@[0].keys@),
        ensures
            r.wf(),
            r.keyboards == keyboards,
            r.current_index == 0,
            r.stats == stats,
            r.previous_char is None,
    {
        let (mapping, scan_to_char) = build_mappings(&keyboards[0]);
        AppState {
            keyboards,
            current_index: 0,
            layout_state: mapping,
            scan_to_char,
            stats,
            previous_char: None,
        }
    }

    /// The active keyboard.
    pub fn current_keyboard(&self) -> (r: &PhysicalKeyboard)
        requires
            self.wf(),
        ensures
            *r == self.keyboards@[self.current_index as int],
    {
        &self.keyboards[self.current_index]
    }

    /// Make keyboard `index` the active one; an index out of range changes
    /// nothing.
    pub fn switch_layout(&mut self, index: usize)
        requires
            old(self).stats.wf(),
        ensures
            index >= old(self).keyboards@.len() ==> *final(self) == *old(self),
            index < old(self).keyboards@.len() ==> final(self).wf() && final(self).current_index
                == index,
            final(self).keyboards == old(self).keyboards,
            final(self).stats == old(self).stats,
            final(self).previous_char == old(self).previous_char,
    {
        if index >= self.keyboards.len() {
            return;
        }
        self.current_index = index;
        let (mapping, scan_to_char) = build_mappings(&self.keyboards[index]);
        self.layout_state = mapping;
        self.scan_to_char = scan_to_char;
    }

    /// Make the first keyboard with id `id` the active one; nothing changes
    /// when no keyboard has that id.
    pub fn select_layout_by_id(&mut self, id: &str)
        requires
            old(self).wf(),
        ensures
            final(self).wf(),
            first_id_position(old(self).keyboards@, id@) == old(self).keyboards@.len() ==> *final(self) == *old(self),
            first_id_position(old(self).keyboards@, id@) < old(self).keyboards@.len()
                ==> final(self).current_index == first_id_position(old(self).keyboards@, id@),
            final(self).keyboards == old(self).keyboards,
            final(self).stats == old(self).stats,
            final(self).previous_char == old(self).previous_char,
    {
        proof {
            lemma_first_id_position(self.keyboards@, id@);
        }
        let wanted = String::from_str(id);
        let n = self.keyboards.len();
        let mut i: usize = 0;
        while i < n && self.keyboards[i].id != wanted
            invariant
                n == self.keyboards@.len(),
                wanted@ == id@,
                i <= n,
                forall|j: int| 0 <= j < i ==> #[trigger] self.keyboards@[j].id@ != id@,
            decreases n - i,
        {
            i += 1;
        }
        proof {
            let f = first_id_position(self.keyboards@, id@);
            if f < i {
                assert(self.keyboards@[f].id@ == id@);
            }
            if i < n && i < f {
                assert(self.keyboards@[i as int].id@ == id@);
            }
        }
        if i < n {
            self.switch_layout(i);
        }
    }

    /// Put a saved keyboard in the list: it replaces the first keyboard with
    /// the same id, or is appended; then it becomes the active one.
    pub fn apply_saved_keyboard(&mut self, kb: PhysicalKeyboard)
        requires
            old(self).wf(),
            old(self).keyboards@.len() < usize::MAX,
        ensures
            final(self).wf(),
            ({
                let p = first_id_position(old(self).keyboards@, kb.id@);
                &&& p < old(self).keyboards@.len() ==> final(self).keyboards@ == old(self).keyboards@.update(p, kb)
                &&& p == old(self).keyboards@.len() ==> final(self).keyboards@ == old(self).keyboards@.push(kb)
                &&& final(self).current_index == p
            }),
            final(self).stats == old(self).stats,
            final(self).previous_char == old(self).previous_char,
    {
        let ghost old_ks = self.keyboards@;
        let ghost p = first_id_position(old_ks, kb.id@);
        proof {
            lemma_first_id_position(old_ks, kb.id@);
        }
        let id = kb.id.clone();
        let n = self.keyboards.len();
        let mut i: usize = 0;
        while i < n && self.keyboards[i].id != id
            invariant
                n == self.keyboards@.len(),
                self.keyboards@ == old_ks,
                id@ == kb.id@,
                i <= n,
                forall|j: int| 0 <= j < i ==> #[trigger] old_ks[j].id@ != id@,
            decreases n - i,
        {
            i += 1;
        }
        proof {
            if p < i {
                assert(old_ks[p].id@ == id@);
            }
            if i < n && i < p {
                assert(old_ks[i as int].id@ == id@);
            }
        }
        let pos: Option<usize> = if i < n {
            Some(i)
        } else {
            None
        };
        match pos {
            Some(q) => {
                self.keyboards.set(q, kb);
            },
            None => {
                self.keyboards.push(kb);
            },
        }
        // The keyboard just placed is the first one with its id.
        let m = self.keyboards.len();
        let mut new_idx: usize = 0;
        while new_idx < m && self.keyboards[new_idx].id != id
            invariant
                m == self.keyboards@.len(),
                new_idx <= p,
                p < m,
                self.keyboards@[p].id@ == id@,
                forall|j: int| 0 <= j < p ==> #[trigger] self.keyboards@[j].id@ != id@,
            decreases m - new_idx,
        {
            new_idx += 1;
        }
        self.switch_layout(new_idx);
    }

    /// The counters that recording `ch` would increase have room: when `ch`
    /// is counted, its unigram count and, after a previous character, the
    /// bigram count are below `u64::MAX`.
    pub open spec fn room_for(&self, ch: char) -> bool {
        recorded_char(ch) matches Some(c) ==> {
            &&& self.stats.unigrams.count_spec(c) < u64::MAX
            &&& self.previous_char matches Some(p) ==> self.stats.bigram_count_spec(p, c)
                < u64::MAX
        }
    }

    /// `next` is this state after recording the typed character `ch`.
    pub open spec fn records(&self, next: &AppState, ch: char) -> bool {
        match recorded_char(ch) {
            None => {
                &&& next.stats == self.stats
                &&& next.previous_char == self.previous_char
            },
            Some(c) => {
                &&& next.stats.unigrams@ == self.stats.unigrams@.insert(
                    c,
                    (self.stats.unigrams.count_spec(c) + 1) as u64,
                )
                &&& next.stats.unigrams.total_spec() == self.stats.unigrams.total_spec() + 1
                &&& next.stats.bigrams_spec() == match self.previous_char {
                    Some(p) => self.stats.bigrams_spec().insert(
                        (p, c),
                        (self.stats.bigram_count_spec(p, c) + 1) as u64,
                    ),
                    None => self.stats.bigrams_spec(),
                }
                &&& next.previous_char == Some(c)
            },
        }
    }

    /// `next` is this state after a key press with scan code `sc`: the
    /// character the active layout puts there, if any, is recorded.
    pub open spec fn handles_key(&self, next: &AppState, sc: u16) -> bool {
        if self.scan_to_char@.contains_key(sc) {
            self.records(next, self.scan_to_char@[sc].0)
        } else {
            &&& next.stats == self.stats
            &&& next.previous_char == self.previous_char
        }
    }

    /// Count a typed character: its lowercase form, when that is a space or
    /// alphabetic, is counted as a unigram and, after a previously counted
    /// character, as a bigram; it then becomes the previous character.
    pub fn record_char(&mut self, ch: char)
        requires
            old(self).stats.wf(),
            old(self).room_for(ch),
        ensures
            final(self).stats.wf(),
            final(self).same_layout(&*old(self)),
            old(self).records(&*final(self), ch),
    {
        let ch_lower = to_lower(ch);
        if !is_countable(ch_lower) {
            return;
        }
        let cid = CharId::new(ch_lower);
        self.stats.record_unigram(cid);
        match self.previous_char {
            Some(prev) => {
                self.stats.record_bigram(prev, cid);
            },
            None => {},
        }
        self.previous_char = Some(cid);
    }

    /// Whether the counters that recording `ch` would increase have room.
    pub fn has_room_for(&self, ch: char) -> (r: bool)
        requires
            self.stats.wf(),
        ensures
            r == self.room_for(ch),
    {
        let ch_lower = to_lower(ch);
        if !is_countable(ch_lower) {
            return true;
        }
        let cid = CharId::new(ch_lower);
        if self.stats.unigrams.count(cid) == u64::MAX {
            return false;
        }
        match self.previous_char {
            Some(prev) => self.stats.bigram_count(prev, cid) < u64::MAX,
            None => true,
        }
    }

    /// Record `ch` when its counters have room and say so; when they have
    /// none, change nothing and return `false`.
    pub fn try_record_char(&mut self, ch: char) -> (r: bool)
        requires
            old(self).stats.wf(),
        ensures
            final(self).stats.wf(),
            final(self).same_layout(&*old(self)),
            r == old(self).room_for(ch),
            r ==> old(self).records(&*final(self), ch),
            !r ==> final(self).stats == old(self).stats && final(self).previous_char == old(
                self,
            ).previous_char,
    {
        if self.has_room_for(ch) {
            self.record_char(ch);
            true
        } else {
            false
        }
    }

    /// Handle a key press reported by the platform listener: the character
    /// the active layout puts on scan code `sc`, if any, is recorded.
    pub fn handle_key_press(&mut self, sc: u16)
        requires
            old(self).stats.wf(),
            old(self).scan_to_char@.contains_key(sc) ==> old(self).room_for(
                old(self).scan_to_char@[sc].0,
            ),
        ensures
            final(self).stats.wf(),
            final(self).same_layout(&*old(self)),
            old(self).handles_key(&*final(self), sc),
    {
        let found = match self.scan_to_char.get(&sc) {
            Some(cid) => Some(*cid),
            None => None,
        };
        match found {
            Some(cid) => self.record_char(cid.as_char()),
            None => {},
        }
    }

    /// Handle a key press when the counters it would increase have room and
    /// say so; when they have none, change nothing and return `false`.
    pub fn try_handle_key_press(&mut self, sc: u16) -> (r: bool)
        requires
            old(self).stats.wf(),
        ensures
            final(self).stats.wf(),
            final(self).same_layout(&*old(self)),
            r == (old(self).scan_to_char@.contains_key(sc) ==> old(self).room_for(
                old(self).scan_to_char@[sc].0,
            )),
            r ==> old(self).handles_key(&*final(self), sc),
            !r ==> final(self).stats == old(self).stats && final(self).previous_char == old(
                self,
            ).previous_char,
    {
        let found = match self.scan_to_char.get(&sc) {
            Some(cid) => Some(*cid),
            None => None,
        };
        match found {
            Some(cid) => self.try_record_char(cid.as_char()),
            None => true,
        }
    }

    /// Whether some key of the active layout produces a character whose
    /// lowercase form is `c`.
    fn on_active_layout(pairs: &Vec<(KeyId, char)>, c: char) -> (r: bool)
        requires
            keys_unique(pairs@),
        ensures
            r == on_layout(assoc_map(pairs@), c),
    {
        let n = pairs.len();
        let mut i: usize = 0;
        while i < n
            invariant
                n == pairs@.len(),
                keys_unique(pairs@),
                i <= n,
                forall|j: int| 0 <= j < i ==> lower(#[trigger] pairs@[j].1) != c,
            decreases n - i,
        {
            if to_lower(pairs[i].1) == c {
                proof {
                    lemma_assoc_at(pairs@, i as int);
                    assert(assoc_map(pairs@).contains_key(pairs@[i as int].0));
                }
                return true;
            }
            i += 1;
        }
        proof {
            let m = assoc_map(pairs@);
            assert forall|k: KeyId| #[trigger] m.contains_key(k) implies lower(m[k]) != c by {
                let j = choose|j: int| 0 <= j < pairs@.len() && #[trigger] pairs@[j].0 == k;
                lemma_assoc_at(pairs@, j);
            }
        }
        false
    }

    /// The letter-frequency table: each counted character that some key of
    /// the active layout produces (lowercased), with its count, most frequent
    /// first. Characters with equal counts come in no promised order.
    pub fn frequency_entries(&self) -> (r: Vec<(char, u64)>)
        requires
            self.layout_state.wf(),
            self.stats.wf(),
        ensures
            forall|i: int|
                0 <= i < r@.len() ==> {
                    &&& self.stats.unigrams@.contains_key(CharId(#[trigger] r@[i].0))
                    &&& self.stats.unigrams@[CharId(r@[i].0)] == r@[i].1
                    &&& on_layout(self.layout_state@, r@[i].0)
                },
            forall|c: CharId|
                #[trigger] self.stats.unigrams@.contains_key(c) && on_layout(self.layout_state@, c.0)
                    ==> exists|i: int| 0 <= i < r@.len() && #[trigger] r@[i].0 == c.0,
            chars_distinct(r@),
            sorted_by_count_desc(r@),
    {
        let layout = self.layout_state.pairs();
        let counts = self.stats.unigrams.pairs();
        let ghost m = self.layout_state@;
        let ghost u = self.stats.unigrams@;
        let n = counts.len();
        let mut out: Vec<(char, u64)> = Vec::new();
        for i in 0..n
            invariant
                n == counts@.len(),
                keys_unique(counts@),
                assoc_map(counts@) == u,
                keys_unique(layout@),
                assoc_map(layout@) == m,
                forall|e: (char, u64)|
                    #[trigger] out@.contains(e) ==> {
                        &&& u.contains_key(CharId(e.0))
                        &&& u[CharId(e.0)] == e.1
                        &&& on_layout(m, e.0)
                        &&& exists|b: int| 0 <= b < i && #[trigger] counts@[b].0 == CharId(e.0)
                    },
                forall|b: int|
                    0 <= b < i && on_layout(m, (#[trigger] counts@[b]).0.0) ==> out@.contains(
                        (counts@[b].0.0, counts@[b].1),
                    ),
                chars_distinct(out@),
                sorted_by_count_desc(out@),
        {
            let (cid, count) = counts[i];
            proof {
                lemma_assoc_at(counts@, i as int);
            }
            if Self::on_active_layout(&layout, cid.0) {
                proof {
                    assert forall|a: int| 0 <= a < out@.len() implies out@[a].0 != cid.0 by {
                        let e = out@[a];
                        assert(out@.contains(e));
                        let b = choose|b: int| 0 <= b < i && #[trigger] counts@[b].0 == CharId(e.0);
                        assert(counts@[b].0 != counts@[i as int].0);
                    }
                }
                insert_by_count_desc(&mut out, (cid.0, count));
            }
        }
        proof {
            assert forall|c: CharId|
                #[trigger] u.contains_key(c) && on_layout(m, c.0) implies exists|i: int|
                0 <= i < out@.len() && #[trigger] out@[i].0 == c.0 by {
                let b = choose|b: int| 0 <= b < counts@.len() && #[trigger] counts@[b].0 == c;
                assert(on_layout(m, counts@[b].0.0));
                assert(out@.contains((counts@[b].0.0, counts@[b].1)));
            }
            assert forall|i: int| 0 <= i < out@.len() implies {
                &&& u.contains_key(CharId(#[trigger] out@[i].0))
                &&& u[CharId(out@[i].0)] == out@[i].1
                &&& on_layout(m, out@[i].0)
            } by {
                assert(out@.contains(out@[i]));
            }
        }
        out
    }

    /// Per key of the active layout whose character (lowercased) has been
    /// counted: the key and that count. The heatmap scales these.
    pub fn key_counts(&self) -> (r: Vec<(KeyId, u64)>)
        requires
            self.layout_state.wf(),
            self.stats.wf(),
        ensures
            keys_unique(r@),
            assoc_map(r@) == key_counts_spec(self.layout_state@, self.stats.unigrams@),
    {
        let pairs = self.layout_state.pairs();
        let ghost m = self.layout_state@;
        let ghost counts = self.stats.unigrams@;
        let mut r: Vec<(KeyId, u64)> = Vec::new();
        let n = pairs.len();
        proof {
            lemma_assoc_empty(r@);
        }
        for i in 0..n
            invariant
                n == pairs@.len(),
                keys_unique(pairs@),
                assoc_map(pairs@) == m,
                m == self.layout_state@,
                counts == self.stats.unigrams@,
                self.stats.wf(),
                keys_unique(r@),
                forall|k: KeyId| has_key(r@, k) ==> has_key(pairs@.subrange(0, i as int), k),
                assoc_map(r@) == Map::new(
                    |k: KeyId| has_key(pairs@.subrange(0, i as int), k) && key_counts_spec(
                        m,
                        counts,
                    ).contains_key(k),
                    |k: KeyId| key_counts_spec(m, counts)[k],
                ),
        {
            let (kid, ch) = pairs[i];
            proof {
                lemma_assoc_at(pairs@, i as int);
            }
            let c = to_lower(ch);
            let got = self.stats.unigrams.get(CharId::new(c));
            let ghost old_r = r@;
            proof {
                assert(!has_key(pairs@.subrange(0, i as int), kid)) by {
                    if has_key(pairs@.subrange(0, i as int), kid) {
                        let j = choose|j: int|
                            0 <= j < i && #[trigger] pairs@.subrange(0, i as int)[j].0 == kid;
                        assert(pairs@[j].0 == kid);
                    }
                }
            }
            match got {
                Some(count) => {
                    proof {
                        lemma_assoc_push(r@, kid, count);
                    }
                    r.push((kid, count));
                },
                None => {},
            }
            proof {
                let pre = pairs@.subrange(0, i as int);
                let post = pairs@.subrange(0, i + 1);
                assert forall|k: KeyId| has_key(post, k) <==> has_key(pre, k) || k == kid by {
                    if has_key(post, k) {
                        let j = choose|j: int| 0 <= j < post.len() && #[trigger] post[j].0 == k;
                        if j < i {
                            assert(pre[j] == post[j]);
                        }
                    }
                    if has_key(pre, k) {
                        let j = choose|j: int| 0 <= j < pre.len() && #[trigger] pre[j].0 == k;
                        assert(pre[j] == post[j]);
                    }
                    if k == kid {
                        assert(post[i as int].0 == kid);
                    }
                }
                let target = Map::new(
                    |k: KeyId| has_key(post, k) && key_counts_spec(m, counts).contains_key(k),
                    |k: KeyId| key_counts_spec(m, counts)[k],
                );
                assert forall|k: KeyId| has_key(r@, k) implies has_key(post, k) by {
                    if k != kid {
                        assert(has_key(old_r, k)) by {
                            let j = choose|j: int| 0 <= j < r@.len() && #[trigger] r@[j].0 == k;
                            assert(j < old_r.len());
                            assert(r@[j] == old_r[j]);
                        }
                    }
                }
                assert(assoc_map(r@) =~= target);
            }
        }
        proof {
            assert(pairs@.subrange(0, n as int) =~= pairs@);
            assert forall|k: KeyId| has_key(pairs@, k) <==> m.contains_key(k) by {}
            assert(assoc_map(r@) =~= key_counts_spec(m, counts));
        }
        r
    }
}

/// Typing a counted character adds one to its count and leaves every other
/// character's count as it was; after a previously counted character, any
/// one, a space as much as a letter, it adds one to the count of that pair and
/// leaves every other pair's count; it then is the previous character. A
/// character that is not counted changes no count and not the previous
/// character. (Counts are taken to have room, as `record_char` requires.)
pub proof fn law_typing_counts(s: AppState, next: AppState, ch: char)
    requires
        s.room_for(ch),
        s.records(&next, ch),
    ensures
        match recorded_char(ch) {
            Some(c) => {
                &&& next.stats.unigrams.count_spec(c) == s.stats.unigrams.count_spec(c) + 1
                &&& forall|d: CharId|
                    d != c ==> #[trigger] next.stats.unigrams.count_spec(d)
                        == s.stats.unigrams.count_spec(d)
                &&& forall|p: CharId|
                    s.previous_char == Some(p) ==> #[trigger] next.stats.bigram_count_spec(p, c)
                        == s.stats.bigram_count_spec(p, c) + 1
                &&& forall|x: CharId, y: CharId|
                    !(s.previous_char == Some(x) && y == c) ==> #[trigger] next.stats.bigram_count_spec(
                        x,
                        y,
                    ) == s.stats.bigram_count_spec(x, y)
                &&& next.previous_char == Some(c)
            },
            None => {
                &&& forall|d: CharId| #[trigger]
                    next.stats.unigrams.count_spec(d) == s.stats.unigrams.count_spec(d)
                &&& forall|x: CharId, y: CharId| #[trigger]
                    next.stats.bigram_count_spec(x, y) == s.stats.bigram_count_spec(x, y)
                &&& next.previous_char == s.previous_char
            },
        },
{
}

/// Every key of the layout whose character, lowercased, has been counted
/// appears in the per-key counts with that count, whatever the character (a
/// space bar as much as a letter key); no other key appears.
pub proof fn law_key_counts_cover(m: Map<KeyId, char>, counts: Map<CharId, u64>, k: KeyId)
    ensures
        m.contains_key(k) && counts.contains_key(CharId(lower(m[k]))) ==> {
            &&& key_counts_spec(m, counts).contains_key(k)
            &&& key_counts_spec(m, counts)[k] == counts[CharId(lower(m[k]))]
        },
        key_counts_spec(m, counts).contains_key(k) ==> m.contains_key(k) && counts.contains_key(
            CharId(lower(m[k])),
        ),
{
}

/// Typing a counted character lights up every key of the layout that
/// produces it: in the per-key counts afterwards each such key holds the
/// character's count before, plus one.
pub proof fn law_typing_lights_keys(s: AppState, next: AppState, ch: char, k: KeyId)
    requires
        s.room_for(ch),
        s.records(&next, ch),
        next.same_layout(&s),
        recorded_char(ch) is Some,
        s.layout_state@.contains_key(k),
        Some(CharId(lower(s.layout_state@[k]))) == recorded_char(ch),
    ensures
        key_counts_spec(next.layout_state@, next.stats.unigrams@).contains_key(k),
        key_counts_spec(next.layout_state@, next.stats.unigrams@)[k] == s.stats.unigrams.count_spec(
            CharId(lower(s.layout_state@[k])),
        ) + 1,
{
    law_typing_counts(s, next, ch);
    law_key_counts_cover(next.layout_state@, next.stats.unigrams@, k);
}

} // verus!

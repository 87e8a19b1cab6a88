//! Character mappings derived from a keyboard's key labels.
use std::collections::HashMap;
use vstd::prelude::*;

use crate::chars::{countable, is_countable, lower, to_lower};
use crate::stats::LanguageStats;
use crate::id::{CharId, KeyId};
use crate::keyboard::{KeyDef, PhysicalKeyboard};
use crate::layout::LayoutState;

verus! {

broadcast use vstd::std_specs::hash::group_hash_axioms;

/// A key whose label is a single countable character.
pub open spec fn labelled_countable(k: KeyDef) -> bool {
    k.label@.len() == 1 && countable(k.label@[0])
}

/// Key id to label character, over the keys with a single countable
/// character as label; a later key with the same id wins.
pub open spec fn char_mapping_spec(keys: Seq<KeyDef>) -> Map<KeyId, char>
    decreases keys.len(),
{
    if keys.len() == 0 {
        Map::empty()
    } else {
        let m = char_mapping_spec(keys.drop_last());
        let k = keys.last();
        if labelled_countable(k) {
            m.insert(KeyId(k.id), k.label@[0])
        } else {
            m
        }
    }
}

/// Linux scan code to lowercased label character, over the keys with a single
/// countable character as label and a non-zero scan code; a later key with the
/// same scan code wins.
pub open spec fn scan_mapping_spec(keys: Seq<KeyDef>) -> Map<u16, CharId>
    decreases keys.len(),
{
    if keys.len() == 0 {
        Map::empty()
    } else {
        let m = scan_mapping_spec(keys.drop_last());
        let k = keys.last();
        if labelled_countable(k) && k.scan_codes.linux_evdev != 0 {
            m.insert(k.scan_codes.linux_evdev, CharId(lower(k.label@[0])))
        } else {
            m
        }
    }
}

/// Like `scan_mapping_spec`, but to the label character as written.
pub open spec fn raw_scan_mapping_spec(keys: Seq<KeyDef>) -> Map<u16, char>
    decreases keys.len(),
{
    if keys.len() == 0 {
        Map::empty()
    } else {
        let m = raw_scan_mapping_spec(keys.drop_last());
        let k = keys.last();
        if labelled_countable(k) && k.scan_codes.linux_evdev != 0 {
            m.insert(k.scan_codes.linux_evdev, k.label@[0])
        } else {
            m
        }
    }
}

/// The single character of `k`'s label when the label is one countable
/// character.
fn countable_label(k: &KeyDef) -> (r: Option<char>)
    ensures
        match r {
            Some(c) => labelled_countable(*k) && c == k.label@[0],
            None => !labelled_countable(*k),
        },
{
    let label = k.label.as_str();
    if label.unicode_len() != 1 {
        return None;
    }
    let ch = label.get_char(0);
    if !is_countable(ch) {
        return None;
    }
    Some(ch)
}

/// The key-to-character layout and the scan-code-to-character table of a
/// keyboard, taken from the keys whose label is one space or alphabetic
/// character. The layout keeps the label as written; the scan table holds its
/// lowercase form and skips scan code 0.
pub fn build_mappings(kb: &PhysicalKeyboard) -> (r: (LayoutState, HashMap<u16, CharId>))
    ensures
        r.0.wf(),
        r.0@ == char_mapping_spec(kb.keys@),
        r.1@ == scan_mapping_spec(kb.keys@),
{
    let ghost keys = kb.keys@;
    let mut mapping = LayoutState::new();
    let mut scan_to_char: HashMap<u16, CharId> = HashMap::new();
    let n = kb.keys.len();
    for i in 0..n
        invariant
            n == keys.len(),
            keys == kb.keys@,
            mapping.wf(),
            mapping@ == char_mapping_spec(keys.subrange(0, i as int)),
            scan_to_char@ == scan_mapping_spec(keys.subrange(0, i as int)),
    {
        proof {
            assert(keys.subrange(0, i + 1).drop_last() =~= keys.subrange(0, i as int));
        }
        let k = &kb.keys[i];
        match countable_label(k) {
            Some(ch) => {
                let cid = CharId::new(to_lower(ch));
                mapping.insert(KeyId::new(k.id), ch);
                let sc = k.scan_codes.linux_evdev;
                if sc != 0 {
                    scan_to_char.insert(sc, cid);
                }
            },
            None => {},
        }
    }
    proof {
        assert(keys.subrange(0, n as int) =~= keys);
    }
    (mapping, scan_to_char)
}

/// The scan-code-to-character table the background recorder uses: like the
/// scan table of `build_mappings`, but with label characters as written.
pub fn build_scan_map(kb: &PhysicalKeyboard) -> (r: HashMap<u16, char>)
    ensures
        r@ == raw_scan_mapping_spec(kb.keys@),
{
    let ghost keys = kb.keys@;
    let mut map: HashMap<u16, char> = HashMap::new();
    let n = kb.keys.len();
    for i in 0..n
        invariant
            n == keys.len(),
            keys == kb.keys@,
            map@ == raw_scan_mapping_spec(keys.subrange(0, i as int)),
    {
        proof {
            assert(keys.subrange(0, i + 1).drop_last() =~= keys.subrange(0, i as int));
        }
        let k = &kb.keys[i];
        match countable_label(k) {
            Some(ch) => {
                let sc = k.scan_codes.linux_evdev;
                if sc != 0 {
                    map.insert(sc, ch);
                }
            },
            None => {},
        }
    }
    proof {
        assert(keys.subrange(0, n as int) =~= keys);
    }
    map
}

/// What the background recorder counts for scan code `sc`: the lowercase
/// form of the character the table gives, when that form is countable.
pub open spec fn scan_code_char(map: Map<u16, char>, sc: u16) -> Option<CharId> {
    if map.contains_key(sc) && countable(lower(map[sc])) {
        Some(CharId(lower(map[sc])))
    } else {
        None
    }
}

/// The unigram count that recording scan code `sc` would increase has room.
pub open spec fn scan_room(stats: &LanguageStats, map: Map<u16, char>, sc: u16) -> bool {
    scan_code_char(map, sc) matches Some(c) ==> stats.unigrams.count_spec(c) < u64::MAX
}

/// `next` is `stats` after a key press that counted `r`, or nothing.
pub open spec fn scan_recorded(stats: &LanguageStats, next: &LanguageStats, r: Option<CharId>) -> bool {
    match r {
        Some(c) => {
            &&& next.unigrams@ == stats.unigrams@.insert(c, (stats.unigrams.count_spec(c) + 1) as u64)
            &&& next.unigrams.total_spec() == stats.unigrams.total_spec() + 1
            &&& next.bigrams_spec() == stats.bigrams_spec()
        },
        None => *next == *stats,
    }
}

/// Count the key press with scan code `sc` in the unigram statistics, through
/// the table built by `build_scan_map`. Returns the character counted.
pub fn record_scan_code(stats: &mut LanguageStats, map: &HashMap<u16, char>, sc: u16) -> (r:
    Option<CharId>)
    requires
        old(stats).wf(),
        scan_room(&*old(stats), map@, sc),
    ensures
        r == scan_code_char(map@, sc),
        final(stats).wf(),
        scan_recorded(&*old(stats), &*final(stats), r),
{
    match map.get(&sc) {
        Some(ch) => {
            let lower = to_lower(*ch);
            if !is_countable(lower) {
                return None;
            }
            let cid = CharId::new(lower);
            stats.record_unigram(cid);
            Some(cid)
        },
        None => None,
    }
}

/// Count the key press with scan code `sc` when its unigram count has room.
/// `Ok` holds what `record_scan_code` returns; `Err(c)` means the count of
/// `c` is at `u64::MAX`, and nothing changed.
pub fn try_record_scan_code(stats: &mut LanguageStats, map: &HashMap<u16, char>, sc: u16) -> (r:
    Result<Option<CharId>, CharId>)
    requires
        old(stats).wf(),
    ensures
        final(stats).wf(),
        match r {
            Ok(x) => {
                &&& scan_room(&*old(stats), map@, sc)
                &&& x == scan_code_char(map@, sc)
                &&& scan_recorded(&*old(stats), &*final(stats), x)
            },
            Err(c) => {
                &&& scan_code_char(map@, sc) == Some(c)
                &&& old(stats).unigrams.count_spec(c) == u64::MAX
                &&& *final(stats) == *old(stats)
            },
        },
{
    match map.get(&sc) {
        Some(ch) => {
            let lower = to_lower(*ch);
            if is_countable(lower) && stats.unigrams.count(CharId::new(lower)) == u64::MAX {
                return Err(CharId::new(lower));
            }
        },
        None => {},
    }
    Ok(record_scan_code(stats, map, sc))
}

} // verus!

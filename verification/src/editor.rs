//! The keyboard editor: a copy of a keyboard under a new id whose keys can be
//! added, removed and selected.
use std::collections::HashMap;
use vstd::prelude::*;

use crate::lists::copy_list;
use crate::keyboard::{copy_keys, Finger, KeyDef, KeyType, PhysicalKeyboard, RowType, ScanCodeMap};

verus! {

broadcast use vstd::std_specs::hash::group_hash_axioms;

/// What the editor asks the window to do after a frame.
#[derive(Debug, Clone, Copy, PartialEq, Eq, Structural)]
pub enum EditorAction {
    NoAction,
    Back,
    Save,
}

/// Decimal digits of `n`, most significant first, without leading zeros.
pub open spec fn decimal_spec(n: u64) -> Seq<char>
    decreases n,
{
    if n < 10 {
        seq![((n + 48) as u8) as char]
    } else {
        decimal_spec(n / 10).push((((n % 10) + 48) as u8) as char)
    }
}

/// The one-character string of decimal digit `d`.
fn digit_str(d: u64) -> (r: &'static str)
    requires
        d < 10,
    ensures
        r@ == seq![((d + 48) as u8) as char],
{
    match d {
        0 => {
            proof {
                reveal_strlit("0");
            }
            "0"
        },
        1 => {
            proof {
                reveal_strlit("1");
            }
            "1"
        },
        2 => {
            proof {
                reveal_strlit("2");
            }
            "2"
        },
        3 => {
            proof {
                reveal_strlit("3");
            }
            "3"
        },
        4 => {
            proof {
                reveal_strlit("4");
            }
            "4"
        },
        5 => {
            proof {
                reveal_strlit("5");
            }
            "5"
        },
        6 => {
            proof {
                reveal_strlit("6");
            }
            "6"
        },
        7 => {
            proof {
                reveal_strlit("7");
            }
            "7"
        },
        8 => {
            proof {
                reveal_strlit("8");
            }
            "8"
        },
        _ => {
            proof {
                reveal_strlit("9");
            }
            "9"
        },
    }
}

/// The decimal digits of `n` as a string.
fn decimal_string(n: u64) -> (r: String)
    ensures
        r@ == decimal_spec(n),
    decreases n,
{
    if n < 10 {
        String::from_str(digit_str(n))
    } else {
        let mut s = decimal_string(n / 10);
        s.append(digit_str(n % 10));
        s
    }
}

/// Largest key id, or 0 when there are no keys.
pub open spec fn max_key_id(keys: Seq<KeyDef>) -> int
    decreases keys.len(),
{
    if keys.len() == 0 {
        0
    } else {
        let m = max_key_id(keys.drop_last());
        if keys.last().id > m {
            keys.last().id as int
        } else {
            m
        }
    }
}

/// Every key id is at most `max_key_id`, so an editor started on `keys`
/// hands out ids (from `max_key_id(keys) + 1` upwards) that no key has.
pub proof fn law_new_ids_are_fresh(keys: Seq<KeyDef>, i: int)
    requires
        0 <= i < keys.len(),
    ensures
        keys[i].id <= max_key_id(keys),
        keys[i].id < max_key_id(keys) + 1,
    decreases keys.len(),
{
    if i < keys.len() - 1 {
        law_new_ids_are_fresh(keys.drop_last(), i);
        assert(keys.drop_last()[i] == keys[i]);
    }
}

/// The key added by the editor: at the origin, one unit square, on the home
/// row under the left pinky, labelled "?".
pub open spec fn new_key_spec(k: KeyDef, id: usize) -> bool {
    &&& k.id == id
    &&& k.x_bits == 0
    &&& k.y_bits == 0
    &&& k.width_bits == 0x3F80_0000
    &&& k.height_bits == 0x3F80_0000
    &&& k.finger == Finger::LeftPinky
    &&& k.row_type == RowType::Home
    &&& k.key_type == KeyType::Normal
    &&& k.scan_codes == ScanCodeMap { linux_evdev: 0, windows_raw: 0, macos_hid: 0 }
    &&& k.label@ == "?"@
}

/// Position of the first key with id `id`, or `keys.len()` when none has it.
pub open spec fn first_key_position(keys: Seq<KeyDef>, id: usize) -> int
    decreases keys.len(),
{
    if keys.len() == 0 {
        0
    } else if keys[0].id == id {
        0
    } else {
        1 + first_key_position(keys.drop_first(), id)
    }
}

proof fn lemma_first_key_position(keys: Seq<KeyDef>, id: usize)
    ensures
        0 <= first_key_position(keys, id) <= keys.len(),
        forall|j: int| 0 <= j < first_key_position(keys, id) ==> #[trigger] keys[j].id != id,
        first_key_position(keys, id) < keys.len() ==> keys[first_key_position(keys, id)].id == id,
    decreases keys.len(),
{
    if keys.len() > 0 && keys[0].id != id {
        let t = keys.drop_first();
        lemma_first_key_position(t, id);
        assert forall|j: int| 0 <= j < first_key_position(keys, id) implies #[trigger] keys[j].id
            != id by {
            if j > 0 {
                assert(keys[j] == t[j - 1]);
            }
        }
        if first_key_position(keys, id) < keys.len() {
            assert(keys[first_key_position(keys, id)] == t[first_key_position(t, id)]);
        }
    }
}

/// Position of the first key with id `id`.
pub fn key_position(keys: &Vec<KeyDef>, id: usize) -> (r: Option<usize>)
    ensures
        match r {
            Some(i) => i == first_key_position(keys@, id) && i < keys@.len(),
            None => first_key_position(keys@, id) == keys@.len(),
        },
{
    proof {
        lemma_first_key_position(keys@, id);
    }
    let n = keys.len();
    let mut i: usize = 0;
    while i < n && keys[i].id != id
        invariant
            n == keys@.len(),
            i <= n,
            forall|j: int| 0 <= j < i ==> #[trigger] keys@[j].id != id,
        decreases n - i,
    {
        i += 1;
    }
    proof {
        let f = first_key_position(keys@, id);
        if f < i {
            assert(keys@[f].id == id);
        }
        if i < n && i < f {
            assert(keys@[i as int].id == id);
        }
    }
    if i < n {
        Some(i)
    } else {
        None
    }
}

/// The editor's state: the keyboard being edited, the id the next added key
/// gets, and the selected key.
#[derive(Debug)]
pub struct KeyboardEditor {
    pub keyboard: PhysicalKeyboard,
    pub next_id: usize,
    pub selected_id: Option<usize>,
}

impl KeyboardEditor {
    /// Start editing a copy of `template`: named "<name> (custom)", with id
    /// "<id>_<timestamp>_custom" (`timestamp` in seconds since the Unix
    /// epoch), and the next key id one past the largest present.
    pub fn new(template: &PhysicalKeyboard, timestamp: u64) -> (r: Self)
        requires
            max_key_id(template.keys@) < usize::MAX,
        ensures
            r.keyboard.keys@ == template.keys@,
            r.keyboard.bounds == template.bounds,
            r.keyboard.key_index@ == template.key_index@,
            r.keyboard.render_order@ == template.render_order@,
            r.keyboard.name@ == template.name@ + " (custom)"@,
            r.keyboard.id@ == template.id@ + "_"@ + decimal_spec(timestamp) + "_custom"@,
            r.next_id == max_key_id(template.keys@) + 1,
            r.selected_id is None,
    {
        let keys = copy_keys(&template.keys);
        let n = keys.len();
        let mut max_id: usize = 0;
        for i in 0..n
            invariant
                n == keys@.len(),
                max_id == max_key_id(keys@.subrange(0, i as int)),
        {
            proof {
                assert(keys@.subrange(0, i + 1).drop_last() =~= keys@.subrange(0, i as int));
            }
            if keys[i].id > max_id {
                max_id = keys[i].id;
            }
        }
        proof {
            assert(keys@.subrange(0, n as int) =~= keys@);
        }
        let name = template.name.clone().concat(" (custom)");
        let id = template.id.clone().concat("_").concat(decimal_string(timestamp).as_str()).concat(
            "_custom",
        );
        let key_index: HashMap<usize, usize> = template.key_index.clone();
        let keyboard = PhysicalKeyboard {
            id,
            name,
            keys,
            bounds: template.bounds,
            key_index,
            render_order: copy_list(&template.render_order),
        };
        KeyboardEditor { keyboard, next_id: max_id + 1, selected_id: None }
    }

    /// Add a default key with the next free id and select it.
    pub fn add_key(&mut self)
        requires
            old(self).next_id < usize::MAX,
        ensures
            final(self).next_id == old(self).next_id + 1,
            final(self).keyboard.keys@.len() == old(self).keyboard.keys@.len() + 1,
            final(self).keyboard.keys@.drop_last() == old(self).keyboard.keys@,
            new_key_spec(final(self).keyboard.keys@.last(), old(self).next_id),
            final(self).selected_id == Some(old(self).next_id),
            final(self).keyboard.id == old(self).keyboard.id,
            final(self).keyboard.name == old(self).keyboard.name,
            final(self).keyboard.bounds == old(self).keyboard.bounds,
            final(self).keyboard.key_index == old(self).keyboard.key_index,
            final(self).keyboard.render_order == old(self).keyboard.render_order,
    {
        let id = self.next_id;
        self.next_id = self.next_id + 1;
        let key = KeyDef {
            id,
            x_bits: 0,
            y_bits: 0,
            width_bits: 0x3F80_0000,
            height_bits: 0x3F80_0000,
            finger: Finger::LeftPinky,
            row_type: RowType::Home,
            key_type: KeyType::Normal,
            scan_codes: ScanCodeMap::default(),
            label: String::from_str("?"),
        };
        self.keyboard.keys.push(key);
        self.selected_id = Some(id);
        proof {
            assert(self.keyboard.keys@.drop_last() =~= old(self).keyboard.keys@);
        }
    }

    /// Remove every key with the selected id and clear the selection; nothing
    /// happens when no key is selected.
    pub fn remove_selected(&mut self)
        ensures
            old(self).selected_id is None ==> *final(self) == *old(self),
            old(self).selected_id matches Some(id) ==> {
                &&& final(self).keyboard.keys@ == old(self).keyboard.keys@.filter(
                    |k: KeyDef| k.id != id,
                )
                &&& final(self).selected_id is None
                &&& final(self).next_id == old(self).next_id
                &&& final(self).keyboard.id == old(self).keyboard.id
                &&& final(self).keyboard.name == old(self).keyboard.name
                &&& final(self).keyboard.bounds == old(self).keyboard.bounds
                &&& final(self).keyboard.key_index == old(self).keyboard.key_index
                &&& final(self).keyboard.render_order == old(self).keyboard.render_order
            },
    {
        match self.selected_id {
            Some(id) => {
                let ghost keys = self.keyboard.keys@;
                let mut kept: Vec<KeyDef> = Vec::new();
                let n = self.keyboard.keys.len();
                for i in 0..n
                    invariant
                        n == keys.len(),
                        keys == self.keyboard.keys@,
                        kept@ == keys.subrange(0, i as int).filter(|k: KeyDef| k.id != id),
                {
                    proof {
                        let pre = keys.subrange(0, i + 1);
                        assert(pre.drop_last() =~= keys.subrange(0, i as int));
                        reveal_with_fuel(Seq::<_>::filter, 1);
                    }
                    if self.keyboard.keys[i].id != id {
                        kept.push(self.keyboard.keys[i].clone());
                    }
                }
                proof {
                    assert(keys.subrange(0, n as int) =~= keys);
                }
                self.keyboard.keys = kept;
                self.selected_id = None;
            },
            None => {},
        }
    }

    /// Position of the selected key; when no key has the selected id the
    /// selection is cleared.
    pub fn selected_position(&mut self) -> (r: Option<usize>)
        ensures
            final(self).keyboard == old(self).keyboard,
            final(self).next_id == old(self).next_id,
            match old(self).selected_id {
                None => r is None && final(self).selected_id is None,
                Some(id) => {
                    let p = first_key_position(old(self).keyboard.keys@, id);
                    &&& p < old(self).keyboard.keys@.len() ==> r == Some(p as usize)
                        && final(self).selected_id == Some(id)
                    &&& p == old(self).keyboard.keys@.len() ==> r is None
                        && final(self).selected_id is None
                },
            },
    {
        match self.selected_id {
            Some(id) => {
                let found = key_position(&self.keyboard.keys, id);
                if found.is_none() {
                    self.selected_id = None;
                }
                found
            },
            None => None,
        }
    }

    /// Positions of the keys in increasing id order (equal ids keep list
    /// order), as the key list shows them.
    pub fn positions_by_id(&self) -> (r: Vec<usize>)
        ensures
            r@.len() == self.keyboard.keys@.len(),
            forall|i: int| 0 <= i < r@.len() ==> #[trigger] r@[i] < self.keyboard.keys@.len(),
            forall|i: int, j: int|
                0 <= i < j < r@.len() ==> {
                    let a = self.keyboard.keys@[#[trigger] r@[i] as int].id;
                    let b = self.keyboard.keys@[#[trigger] r@[j] as int].id;
                    a < b || (a == b && r@[i] < r@[j])
                },
    {
        let ghost keys = self.keyboard.keys@;
        let n = self.keyboard.keys.len();
        let mut sorted: Vec<usize> = Vec::new();
        for p in 0..n
            invariant
                n == keys.len(),
                keys == self.keyboard.keys@,
                sorted@.len() == p,
                forall|i: int| 0 <= i < sorted@.len() ==> #[trigger] sorted@[i] < p,
                forall|i: int, j: int|
                    0 <= i < j < sorted@.len() ==> {
                        let a = keys[#[trigger] sorted@[i] as int].id;
                        let b = keys[#[trigger] sorted@[j] as int].id;
                        a < b || (a == b && sorted@[i] < sorted@[j])
                    },
        {
            let id = self.keyboard.keys[p].id;
            let mut j: usize = 0;
            while j < sorted.len() && self.keyboard.keys[sorted[j]].id <= id
                invariant
                    j <= sorted@.len(),
                    sorted@.len() == p,
                    p < n,
                    n == keys.len(),
                    keys == self.keyboard.keys@,
                    id == keys[p as int].id,
                    forall|i: int| 0 <= i < sorted@.len() ==> #[trigger] sorted@[i] < p,
                    forall|i: int| 0 <= i < j ==> keys[#[trigger] sorted@[i] as int].id <= id,
                decreases sorted@.len() - j,
            {
                j += 1;
            }
            let ghost before = sorted@;
            sorted.insert(j, p);
            proof {
                let s = sorted@;
                assert forall|a: int, b: int| 0 <= a < b < s.len() implies {
                    let x = keys[#[trigger] s[a] as int].id;
                    let y = keys[#[trigger] s[b] as int].id;
                    x < y || (x == y && s[a] < s[b])
                } by {
                    if b < j {
                        assert(s[a] == before[a] && s[b] == before[b]);
                    } else if b == j {
                        assert(s[a] == before[a]);
                    } else if a < j {
                        assert(s[a] == before[a] && s[b] == before[b - 1]);
                        assert(keys[before[j as int] as int].id > id);
                    } else if a == j {
                        assert(s[b] == before[b - 1]);
                        assert(keys[before[j as int] as int].id > id);
                    } else {
                        assert(s[a] == before[a - 1] && s[b] == before[b - 1]);
                    }
                }
            }
        }
        sorted
    }

    /// The editor may save: both the keyboard id and its name are non-empty.
    pub fn can_save(&self) -> (r: bool)
        ensures
            r == (self.keyboard.id@.len() > 0 && self.keyboard.name@.len() > 0),
    {
        !self.keyboard.id.as_str().is_empty() && !self.keyboard.name.as_str().is_empty()
    }
}

} // verus!

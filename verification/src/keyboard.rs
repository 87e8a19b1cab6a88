//! Physical keyboard model: keys, their geometry and fast lookup tables.
//!
//! Key positions and sizes are `f32` values in the layout files; the library
//! keeps each one as its IEEE-754 bit pattern (`f32::to_bits`), so the data
//! passes through unchanged while the ordering logic works on integers.
use std::collections::HashMap;
use vstd::prelude::*;

use crate::lists::copy_list;

verus! {

broadcast use vstd::std_specs::hash::group_hash_axioms;

/// Finger used to press a key.
#[derive(Debug, Clone, Copy, PartialEq, Eq, Hash, Structural)]
pub enum Finger {
    LeftPinky,
    LeftRing,
    LeftMiddle,
    LeftIndex,
    LeftThumb,
    RightThumb,
    RightIndex,
    RightMiddle,
    RightRing,
    RightPinky,
}

/// Row of the keyboard.
#[derive(Debug, Clone, Copy, PartialEq, Eq, Hash, Structural)]
pub enum RowType {
    Number,
    Top,
    Home,
    Bottom,
    Thumb,
}

/// Kind of key.
#[derive(Debug, Clone, Copy, PartialEq, Eq, Hash, Structural)]
pub enum KeyType {
    Normal,
    Modifier,
    Space,
    LayerToggle,
}

/// Mapping from platform-specific scan codes to a unified code.
#[derive(Debug, Clone, Copy, PartialEq, Eq, Structural)]
pub struct ScanCodeMap {
    pub linux_evdev: u16,
    pub windows_raw: u16,
    pub macos_hid: u16,
}

impl Default for ScanCodeMap {
    fn default() -> (r: Self)
        ensures
            r.linux_evdev == 0,
            r.windows_raw == 0,
            r.macos_hid == 0,
    {
        ScanCodeMap { linux_evdev: 0, windows_raw: 0, macos_hid: 0 }
    }
}

/// Definition of a single physical key. `x_bits`, `y_bits`, `width_bits`
/// and `height_bits` are the bit patterns of the `f32` position and size.
#[derive(Debug)]
pub struct KeyDef {
    pub id: usize,
    pub x_bits: u32,
    pub y_bits: u32,
    pub width_bits: u32,
    pub height_bits: u32,
    pub finger: Finger,
    pub row_type: RowType,
    pub key_type: KeyType,
    pub scan_codes: ScanCodeMap,
    pub label: String,
}

impl Clone for KeyDef {
    fn clone(&self) -> (r: Self)
        ensures
            r == *self,
    {
        KeyDef {
            id: self.id,
            x_bits: self.x_bits,
            y_bits: self.y_bits,
            width_bits: self.width_bits,
            height_bits: self.height_bits,
            finger: self.finger,
            row_type: self.row_type,
            key_type: self.key_type,
            scan_codes: self.scan_codes,
            label: self.label.clone(),
        }
    }
}

/// A copy of a key list, key by key.
pub fn copy_keys(keys: &Vec<KeyDef>) -> (r: Vec<KeyDef>)
    ensures
        r@ == keys@,
{
    let mut r: Vec<KeyDef> = Vec::new();
    let n = keys.len();
    for i in 0..n
        invariant
            n == keys@.len(),
            r@ == keys@.subrange(0, i as int),
    {
        r.push(keys[i].clone());
    }
    assert(r@ == keys@);
    r
}

/// Physical keyboard model (collection of keys + geometry).
///
/// `key_index` maps a key id to its position in `keys`; `render_order` lists
/// key ids in drawing order. Both are filled by `build_index`.
#[derive(Debug)]
pub struct PhysicalKeyboard {
    pub id: String,
    pub name: String,
    pub keys: Vec<KeyDef>,
    pub bounds: (u32, u32),
    pub key_index: HashMap<usize, usize>,
    pub render_order: Vec<usize>,
}

impl Clone for PhysicalKeyboard {
    fn clone(&self) -> (r: Self)
        ensures
            r.id == self.id,
            r.name == self.name,
            r.keys@ == self.keys@,
            r.bounds == self.bounds,
            r.key_index@ == self.key_index@,
            r.render_order@ == self.render_order@,
    {
        PhysicalKeyboard {
            id: self.id.clone(),
            name: self.name.clone(),
            keys: copy_keys(&self.keys),
            bounds: self.bounds,
            key_index: self.key_index.clone(),
            render_order: copy_list(&self.render_order),
        }
    }
}

/// The bit pattern `b` is an `f32` NaN (all exponent bits set, non-zero
/// mantissa).
pub open spec fn is_nan_bits(b: u32) -> bool {
    b % 0x8000_0000 > 0x7F80_0000
}

/// Integer that orders the `f32` bit patterns as their values are ordered:
/// negative values by decreasing magnitude, then both zeros as one value, then
/// positive values by increasing magnitude.
pub open spec fn order_key(b: u32) -> int {
    if b == 0x8000_0000 {
        0x8000_0000
    } else if b >= 0x8000_0000 {
        0xFFFF_FFFF - b
    } else {
        b + 0x8000_0000
    }
}

/// The id-to-position table for `keys`: each id maps to the last position
/// that holds it.
pub open spec fn index_spec(keys: Seq<KeyDef>) -> Map<usize, usize>
    decreases keys.len(),
{
    if keys.len() == 0 {
        Map::empty()
    } else {
        index_spec(keys.drop_last()).insert(keys.last().id, (keys.len() - 1) as usize)
    }
}

/// Position of the key whose geometry orders key position `p` when drawing:
/// the last key that carries the same id.
pub open spec fn render_source(keys: Seq<KeyDef>, p: int) -> int {
    index_spec(keys)[keys[p].id] as int
}

/// Key position `p` is drawn before key position `q`: by row coordinate,
/// then column coordinate, then position in the list.
pub open spec fn render_precedes(keys: Seq<KeyDef>, p: int, q: int) -> bool {
    let yp = order_key(keys[render_source(keys, p)].y_bits);
    let yq = order_key(keys[render_source(keys, q)].y_bits);
    let xp = order_key(keys[render_source(keys, p)].x_bits);
    let xq = order_key(keys[render_source(keys, q)].x_bits);
    yp < yq || (yp == yq && (xp < xq || (xp == xq && p < q)))
}

/// `order` lists the ids of `keys` in drawing order, as witnessed by `perm`:
/// `perm` holds key positions, each strictly before the next in drawing order
/// (so every position occurs once), and `order[i]` is the id at `perm[i]`.
pub open spec fn render_permutation(keys: Seq<KeyDef>, order: Seq<usize>, perm: Seq<int>) -> bool {
    &&& perm.len() == keys.len()
    &&& order.len() == keys.len()
    &&& forall|i: int| 0 <= i < perm.len() ==> 0 <= #[trigger] perm[i] < perm.len()
    &&& forall|i: int, j: int|
        0 <= i < j < perm.len() ==> render_precedes(keys, #[trigger] perm[i], #[trigger] perm[j])
    &&& forall|i: int| 0 <= i < perm.len() ==> order[i] == keys[#[trigger] perm[i]].id
}

/// Every key whose geometry is compared when ordering has numeric
/// (non-NaN) coordinates. With fewer than two keys nothing is compared.
pub open spec fn sortable(keys: Seq<KeyDef>) -> bool {
    keys.len() >= 2 ==> forall|p: int|
        0 <= p < keys.len() ==> !is_nan_bits(#[trigger] keys[render_source(keys, p)].x_bits)
            && !is_nan_bits(keys[render_source(keys, p)].y_bits)
}

/// Every id in `keys` is in the table, at a position that holds it, and every
/// entry of the table points into `keys`.
proof fn lemma_index_spec(keys: Seq<KeyDef>)
    requires
        keys.len() <= usize::MAX,
    ensures
        forall|p: int| 0 <= p < keys.len() ==> #[trigger] index_spec(keys).contains_key(keys[p].id),
        forall|id: usize| #[trigger]
            index_spec(keys).contains_key(id) ==> index_spec(keys)[id] < keys.len() && keys[index_spec(
                keys,
            )[id] as int].id == id,
        forall|id: usize| #[trigger]
            index_spec(keys).contains_key(id) <==> exists|p: int|
                0 <= p < keys.len() && #[trigger] keys[p].id == id,
        forall|id: usize, j: int|
            #[trigger] index_spec(keys).contains_key(id) && index_spec(keys)[id] < j < keys.len()
                ==> #[trigger] keys[j].id != id,
    decreases keys.len(),
{
    if keys.len() > 0 {
        let t = keys.drop_last();
        lemma_index_spec(t);
        assert forall|p: int| 0 <= p < keys.len() implies #[trigger] index_spec(keys).contains_key(
            keys[p].id,
        ) by {
            if p < t.len() {
                assert(keys[p] == t[p]);
            }
        }
        assert forall|id: usize| #[trigger] index_spec(keys).contains_key(id) implies index_spec(
            keys,
        )[id] < keys.len() && keys[index_spec(keys)[id] as int].id == id by {
            if id != keys.last().id {
                assert(index_spec(t).contains_key(id));
                let q = index_spec(t)[id] as int;
                assert(index_spec(keys)[id] == index_spec(t)[id]);
                assert(keys[q] == t[q]);
            } else {
                assert(index_spec(keys)[id] == keys.len() - 1);
            }
        }
        assert forall|id: usize| #[trigger] index_spec(keys).contains_key(id) implies exists|p: int|
            0 <= p < keys.len() && #[trigger] keys[p].id == id by {
            let q = index_spec(keys)[id] as int;
            assert(keys[q].id == id);
        }
        assert forall|id: usize, j: int|
            #[trigger] index_spec(keys).contains_key(id) && index_spec(keys)[id] < j < keys.len()
                implies #[trigger] keys[j].id != id by {
            if id != keys.last().id {
                assert(index_spec(t).contains_key(id));
                assert(index_spec(keys)[id] == index_spec(t)[id]);
                if j < t.len() {
                    assert(keys[j] == t[j]);
                }
            }
        }
        assert forall|id: usize|
            (exists|p: int| 0 <= p < keys.len() && #[trigger] keys[p].id == id) implies #[trigger] index_spec(
            keys,
        ).contains_key(id) by {
            let p = choose|p: int| 0 <= p < keys.len() && #[trigger] keys[p].id == id;
            if p < t.len() {
                assert(keys[p] == t[p]);
            }
        }
    }
}

/// The ordering integer of an `f32` bit pattern.
fn order_key_exec(b: u32) -> (r: u32)
    ensures
        r == order_key(b),
{
    if b == 0x8000_0000 {
        0x8000_0000
    } else if b >= 0x8000_0000 {
        0xFFFF_FFFF - b
    } else {
        b + 0x8000_0000
    }
}

/// Position of the last key with the id of key `p`.
fn last_with_id(keys: &Vec<KeyDef>, p: usize) -> (r: usize)
    requires
        p < keys@.len(),
    ensures
        r == render_source(keys@, p as int),
        r < keys@.len(),
{
    let len = keys.len();
    proof {
        lemma_index_spec(keys@);
    }
    let id = keys[p].id;
    let mut q = len - 1;
    while keys[q].id != id
        invariant
            p <= q < keys@.len(),
            id == keys@[p as int].id,
            forall|j: int| q < j < keys@.len() ==> #[trigger] keys@[j].id != id,
        decreases q,
    {
        q -= 1;
    }
    proof {
        let r = index_spec(keys@)[id] as int;
        assert(index_spec(keys@).contains_key(keys@[p as int].id));
        if r < q {
            assert(keys@[q as int].id == id);
        }
        if q < r {
            assert(keys@[r].id == id);
        }
    }
    q
}

/// Whether `keys` can be put in drawing order: `sortable(keys@)`.
pub fn is_sortable(keys: &Vec<KeyDef>) -> (r: bool)
    ensures
        r == sortable(keys@),
{
    let n = keys.len();
    if n < 2 {
        return true;
    }
    for p in 0..n
        invariant
            n == keys@.len(),
            n >= 2,
            forall|a: int|
                #![trigger render_source(keys@, a)]
                0 <= a < p ==> !is_nan_bits(keys@[render_source(keys@, a)].x_bits)
                    && !is_nan_bits(keys@[render_source(keys@, a)].y_bits),
    {
        let q = last_with_id(keys, p);
        let x = keys[q].x_bits;
        let y = keys[q].y_bits;
        if x % 0x8000_0000 > 0x7F80_0000 || y % 0x8000_0000 > 0x7F80_0000 {
            proof {
                assert(is_nan_bits(keys@[render_source(keys@, p as int)].x_bits) || is_nan_bits(
                    keys@[render_source(keys@, p as int)].y_bits,
                ));
            }
            return false;
        }
    }
    proof {
        assert forall|a: int| 0 <= a < keys@.len() implies !is_nan_bits(
            #[trigger] keys@[render_source(keys@, a)].x_bits,
        ) && !is_nan_bits(keys@[render_source(keys@, a)].y_bits) by {
        }
    }
    true
}

impl PhysicalKeyboard {
    /// The lookup tables agree with `keys`: `key_index` maps each id to a
    /// position in range.
    pub open spec fn index_in_range(&self) -> bool {
        forall|id: usize| #[trigger]
            self.key_index@.contains_key(id) ==> self.key_index@[id] < self.keys@.len()
    }

    /// Build the lookup tables: `key_index` from each id to the last position
    /// holding it, and `render_order`, the ids sorted top-to-bottom then
    /// left-to-right (ties keep list order).
    pub fn build_index(&mut self)
        requires
            sortable(old(self).keys@),
        ensures
            final(self).id == old(self).id,
            final(self).name == old(self).name,
            final(self).keys == old(self).keys,
            final(self).bounds == old(self).bounds,
            final(self).key_index@ == index_spec(old(self).keys@),
            final(self).index_in_range(),
            final(self).render_order@.len() == old(self).keys@.len(),
            exists|perm: Seq<int>| #[trigger] render_permutation(old(self).keys@, final(self).render_order@, perm),
    {
        let ghost keys = self.keys@;
        let n = self.keys.len();
        let mut index: HashMap<usize, usize> = HashMap::new();
        for i in 0..n
            invariant
                n == keys.len(),
                keys == self.keys@,
                index@ == index_spec(keys.subrange(0, i as int)),
        {
            proof {
                assert(keys.subrange(0, i + 1).drop_last() =~= keys.subrange(0, i as int));
            }
            index.insert(self.keys[i].id, i);
        }
        proof {
            assert(keys.subrange(0, n as int) =~= keys);
            lemma_index_spec(keys);
        }
        // The ordering coordinates of every position, read through the index.
        let mut ys: Vec<u32> = Vec::new();
        let mut xs: Vec<u32> = Vec::new();
        for i in 0..n
            invariant
                n == keys.len(),
                keys == self.keys@,
                index@ == index_spec(keys),
                forall|id: usize| #[trigger]
                    index_spec(keys).contains_key(id) ==> index_spec(keys)[id] < keys.len(),
                forall|p: int| 0 <= p < keys.len() ==> #[trigger] index_spec(keys).contains_key(keys[p].id),
                ys@.len() == i,
                xs@.len() == i,
                forall|p: int|
                    0 <= p < i ==> ys@[p] == order_key(keys[render_source(keys, p)].y_bits) && xs@[p]
                        == order_key(keys[render_source(keys, p)].x_bits),
        {
            let id = self.keys[i].id;
            assert(index_spec(keys).contains_key(keys[i as int].id));
            let q = match index.get(&id) {
                Some(q) => *q,
                None => 0,
            };
            ys.push(order_key_exec(self.keys[q].y_bits));
            xs.push(order_key_exec(self.keys[q].x_bits));
        }
        // Insertion of each position into an already sorted list.
        let mut sorted: Vec<usize> = Vec::new();
        for p in 0..n
            invariant
                n == keys.len(),
                ys@.len() == n,
                xs@.len() == n,
                forall|a: int|
                    0 <= a < n ==> ys@[a] == order_key(keys[render_source(keys, a)].y_bits) && xs@[a]
                        == order_key(keys[render_source(keys, a)].x_bits),
                sorted@.len() == p,
                forall|i: int| 0 <= i < sorted@.len() ==> #[trigger] sorted@[i] < p,
                forall|i: int, j: int|
                    0 <= i < j < sorted@.len() ==> render_precedes(
                        keys,
                        #[trigger] sorted@[i] as int,
                        #[trigger] sorted@[j] as int,
                    ),
        {
            let mut j: usize = 0;
            while j < sorted.len() && (ys[sorted[j]] < ys[p] || (ys[sorted[j]] == ys[p] && (
            xs[sorted[j]] < xs[p] || (xs[sorted[j]] == xs[p] && sorted[j] < p))))
                invariant
                    j <= sorted@.len(),
                    sorted@.len() == p,
                    p < n,
                    ys@.len() == n,
                    xs@.len() == n,
                    forall|i: int| 0 <= i < sorted@.len() ==> #[trigger] sorted@[i] < p,
                    forall|a: int|
                        0 <= a < n ==> ys@[a] == order_key(keys[render_source(keys, a)].y_bits)
                            && xs@[a] == order_key(keys[render_source(keys, a)].x_bits),
                    forall|i: int|
                        0 <= i < j ==> render_precedes(keys, #[trigger] sorted@[i] as int, p as int),
                decreases sorted@.len() - j,
            {
                j += 1;
            }
            proof {
                if j < sorted@.len() {
                    let s = sorted@[j as int] as int;
                    assert(render_precedes(keys, p as int, s));
                    assert forall|k: int| j <= k < sorted@.len() implies render_precedes(
                        keys,
                        p as int,
                        #[trigger] sorted@[k] as int,
                    ) by {
                        if k > j {
                            assert(render_precedes(keys, s, sorted@[k] as int));
                        }
                    }
                }
            }
            sorted.insert(j, p);
            proof {
                let s = sorted@;
                assert forall|a: int, b: int| 0 <= a < b < s.len() implies render_precedes(
                    keys,
                    #[trigger] s[a] as int,
                    #[trigger] s[b] as int,
                ) by {
                    let old_s = s.remove(j as int);
                    if a < j && b < j {
                        assert(s[a] == old_s[a] && s[b] == old_s[b]);
                    } else if a < j && b == j {
                        assert(s[a] == old_s[a]);
                    } else if a < j {
                        assert(s[a] == old_s[a] && s[b] == old_s[b - 1]);
                    } else if a == j {
                        assert(s[b] == old_s[b - 1]);
                    } else {
                        assert(s[a] == old_s[a - 1] && s[b] == old_s[b - 1]);
                    }
                }
            }
        }
        let mut order: Vec<usize> = Vec::new();
        for i in 0..n
            invariant
                n == keys.len(),
                keys == self.keys@,
                sorted@.len() == n,
                forall|k: int| 0 <= k < sorted@.len() ==> #[trigger] sorted@[k] < n,
                order@.len() == i,
                forall|k: int| 0 <= k < i ==> order@[k] == keys[sorted@[k] as int].id,
        {
            order.push(self.keys[sorted[i]].id);
        }
        self.key_index = index;
        self.render_order = order;
        proof {
            let perm = sorted@.map(|i: int, v: usize| v as int);
            assert(perm.len() == keys.len());
            assert forall|i: int, j: int| 0 <= i < j < perm.len() implies render_precedes(
                keys,
                #[trigger] perm[i],
                #[trigger] perm[j],
            ) by {
                assert(perm[i] == sorted@[i] as int && perm[j] == sorted@[j] as int);
            }
            assert forall|i: int| 0 <= i < perm.len() implies self.render_order@[i] == keys[#[trigger] perm[i]].id by {
                assert(perm[i] == sorted@[i] as int);
            }
            assert forall|i: int| 0 <= i < perm.len() implies 0 <= #[trigger] perm[i] < perm.len() by {
                assert(perm[i] == sorted@[i] as int);
            }
            assert(render_permutation(keys, self.render_order@, perm));
        }
    }

    /// The key with the given id, through `key_index`.
    pub fn find_by_id(&self, id: usize) -> (r: Option<&KeyDef>)
        requires
            self.index_in_range(),
        ensures
            r == (if self.key_index@.contains_key(id) {
                Some(&self.keys@[self.key_index@[id] as int])
            } else {
                None::<&KeyDef>
            }),
    {
        match self.key_index.get(&id) {
            Some(i) => Some(&self.keys[*i]),
            None => None,
        }
    }

    /// Key ids in drawing order.
    pub fn render_order(&self) -> (r: &[usize])
        ensures
            r@ == self.render_order@,
    {
        self.render_order.as_slice()
    }
}

} // verus!

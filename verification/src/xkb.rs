//! Which of the built-in layouts the desktop session uses, read from the
//! output of `setxkbmap -query` or from the `XKB_DEFAULT_LAYOUT` variable.
use vstd::prelude::*;

use crate::chars::{is_whitespace, whitespace};
use crate::platform::chars_of;

verus! {

/// `s` without its leading whitespace.
pub open spec fn trim_start(s: Seq<char>) -> Seq<char>
    decreases s.len(),
{
    if s.len() > 0 && whitespace(s[0]) {
        trim_start(s.drop_first())
    } else {
        s
    }
}

/// `s` without its trailing whitespace.
pub open spec fn trim_end(s: Seq<char>) -> Seq<char>
    decreases s.len(),
{
    if s.len() > 0 && whitespace(s.last()) {
        trim_end(s.drop_last())
    } else {
        s
    }
}

/// `s` without leading and trailing whitespace.
pub open spec fn trim(s: Seq<char>) -> Seq<char> {
    trim_end(trim_start(s))
}

/// The part of `s` before its first comma (all of `s` when it has none).
pub open spec fn before_comma(s: Seq<char>) -> Seq<char>
    decreases s.len(),
{
    if s.len() == 0 {
        s
    } else if s[0] == ',' {
        Seq::empty()
    } else {
        seq![s[0]] + before_comma(s.drop_first())
    }
}

/// Position of the first line feed in `t`, or its length.
pub open spec fn newline_index(t: Seq<char>) -> int
    decreases t.len(),
{
    if t.len() == 0 {
        0
    } else if t[0] == '\n' {
        0
    } else {
        1 + newline_index(t.drop_first())
    }
}

/// The first line of `t`, without its line ending (`\n` or `\r\n`).
pub open spec fn first_line(t: Seq<char>) -> Seq<char> {
    let k = newline_index(t);
    let raw = t.take(k);
    if k < t.len() && k > 0 && raw.last() == '\r' {
        raw.drop_last()
    } else {
        raw
    }
}

/// Layout id reported by `setxkbmap` to built-in layout id.
pub open spec fn map_setxkbmap_id(id: Seq<char>) -> Seq<char> {
    if id == "us"@ || id == "us(intl)"@ {
        "qwerty"@
    } else if id == "ru"@ || id == "ru( phonetic)"@ {
        "ru"@
    } else if id == "gb"@ || id == "uk"@ || id == "de"@ || id == "fr"@ {
        "qwerty"@
    } else {
        id
    }
}

/// Layout id in `XKB_DEFAULT_LAYOUT` to built-in layout id.
pub open spec fn map_env_id(id: Seq<char>) -> Seq<char> {
    if id == "us"@ {
        "qwerty"@
    } else if id == "ru"@ {
        "ru"@
    } else {
        id
    }
}

/// The layout named by the first line of `t` that, trimmed, starts with
/// "layout:": the first comma-separated entry of the rest, trimmed and
/// mapped to a built-in layout id.
pub open spec fn setxkbmap_layout(t: Seq<char>) -> Option<Seq<char>>
    decreases t.len(),
{
    if t.len() == 0 {
        None
    } else {
        let k = newline_index(t);
        let line = trim(first_line(t));
        if line.len() >= 7 && line.take(7) == "layout:"@ {
            Some(map_setxkbmap_id(trim(before_comma(trim(line.skip(7))))))
        } else if k < t.len() {
            proof {
                lemma_newline_bounds(t);
            }
            setxkbmap_layout(t.skip(k + 1))
        } else {
            None
        }
    }
}

/// The layout named by `XKB_DEFAULT_LAYOUT`: its first comma-separated
/// entry, trimmed and mapped to a built-in layout id.
pub open spec fn env_layout(v: Seq<char>) -> Seq<char> {
    map_env_id(trim(before_comma(v)))
}

/// The first line feed lies within the text.
pub proof fn lemma_newline_bounds(t: Seq<char>)
    ensures
        0 <= newline_index(t) <= t.len(),
    decreases t.len(),
{
    if t.len() > 0 && t[0] != '\n' {
        lemma_newline_bounds(t.drop_first());
    }
}

proof fn lemma_trim_start(s: Seq<char>, i: int)
    requires
        0 <= i <= s.len(),
        forall|j: int| 0 <= j < i ==> whitespace(#[trigger] s[j]),
        i == s.len() || !whitespace(s[i]),
    ensures
        trim_start(s) == s.skip(i),
    decreases i,
{
    if i == 0 {
        assert(s.skip(0) =~= s);
    } else {
        let t = s.drop_first();
        assert forall|j: int| 0 <= j < i - 1 implies whitespace(#[trigger] t[j]) by {
            assert(t[j] == s[j + 1]);
        }
        if i < s.len() {
            assert(t[i - 1] == s[i]);
        }
        lemma_trim_start(t, i - 1);
        assert(t.skip(i - 1) =~= s.skip(i));
    }
}

proof fn lemma_trim_end(s: Seq<char>, i: int)
    requires
        0 <= i <= s.len(),
        forall|j: int| i <= j < s.len() ==> whitespace(#[trigger] s[j]),
        i == 0 || !whitespace(s[i - 1]),
    ensures
        trim_end(s) == s.take(i),
    decreases s.len() - i,
{
    if i == s.len() {
        assert(s.take(i) =~= s);
    } else {
        let t = s.drop_last();
        assert forall|j: int| i <= j < t.len() implies whitespace(#[trigger] t[j]) by {
            assert(t[j] == s[j]);
        }
        if i > 0 {
            assert(t[i - 1] == s[i - 1]);
        }
        assert(whitespace(s[s.len() - 1]));
        lemma_trim_end(t, i);
        assert(t.take(i) =~= s.take(i));
    }
}

proof fn lemma_before_comma(s: Seq<char>, i: int)
    requires
        0 <= i <= s.len(),
        forall|j: int| 0 <= j < i ==> #[trigger] s[j] != ',',
        i == s.len() || s[i] == ',',
    ensures
        before_comma(s) == s.take(i),
    decreases i,
{
    if i == 0 {
        if s.len() == 0 {
            assert(s.take(0) =~= s);
        } else {
            assert(s.take(0) =~= Seq::<char>::empty());
        }
    } else {
        let t = s.drop_first();
        assert forall|j: int| 0 <= j < i - 1 implies #[trigger] t[j] != ',' by {
            assert(t[j] == s[j + 1]);
        }
        if i < s.len() {
            assert(t[i - 1] == s[i]);
        }
        lemma_before_comma(t, i - 1);
        assert(seq![s[0]] + t.take(i - 1) =~= s.take(i));
    }
}

proof fn lemma_newline_index(t: Seq<char>, i: int)
    requires
        0 <= i <= t.len(),
        forall|j: int| 0 <= j < i ==> #[trigger] t[j] != '\n',
        i == t.len() || t[i] == '\n',
    ensures
        newline_index(t) == i,
    decreases i,
{
    if i > 0 {
        let u = t.drop_first();
        assert forall|j: int| 0 <= j < i - 1 implies #[trigger] u[j] != '\n' by {
            assert(u[j] == t[j + 1]);
        }
        if i < t.len() {
            assert(u[i - 1] == t[i]);
        }
        lemma_newline_index(u, i - 1);
    }
}

/// The bounds of `c[a..b]` with leading and trailing whitespace removed.
fn trim_range(c: &Vec<char>, a: usize, b: usize) -> (r: (usize, usize))
    requires
        a <= b <= c@.len(),
    ensures
        a <= r.0 <= r.1 <= b,
        c@.subrange(r.0 as int, r.1 as int) == trim(c@.subrange(a as int, b as int)),
{
    let mut i = a;
    while i < b && is_whitespace(c[i])
        invariant
            a <= i <= b,
            b <= c@.len(),
            forall|j: int| a <= j < i ==> whitespace(#[trigger] c@[j]),
        decreases b - i,
    {
        i += 1;
    }
    let mut e = b;
    while e > i && is_whitespace(c[e - 1])
        invariant
            i <= e <= b,
            b <= c@.len(),
            forall|j: int| e <= j < b ==> whitespace(#[trigger] c@[j]),
        decreases e,
    {
        e -= 1;
    }
    proof {
        let s = c@.subrange(a as int, b as int);
        assert forall|j: int| 0 <= j < i - a implies whitespace(#[trigger] s[j]) by {
            assert(s[j] == c@[a + j]);
        }
        if i < b {
            assert(s[i - a] == c@[i as int]);
        }
        lemma_trim_start(s, i - a);
        let u = s.skip(i - a);
        assert(u =~= c@.subrange(i as int, b as int));
        assert forall|j: int| e - i <= j < u.len() implies whitespace(#[trigger] u[j]) by {
            assert(u[j] == c@[i + j]);
        }
        if e > i {
            assert(u[e - i - 1] == c@[e - 1]);
        }
        lemma_trim_end(u, e - i);
        assert(u.take(e - i) =~= c@.subrange(i as int, e as int));
    }
    (i, e)
}

/// The end of the part of `c[a..b]` before its first comma.
fn before_comma_end(c: &Vec<char>, a: usize, b: usize) -> (r: usize)
    requires
        a <= b <= c@.len(),
    ensures
        a <= r <= b,
        c@.subrange(a as int, r as int) == before_comma(c@.subrange(a as int, b as int)),
{
    let mut i = a;
    while i < b && c[i] != ','
        invariant
            a <= i <= b,
            b <= c@.len(),
            forall|j: int| a <= j < i ==> #[trigger] c@[j] != ',',
        decreases b - i,
    {
        i += 1;
    }
    proof {
        let s = c@.subrange(a as int, b as int);
        assert forall|j: int| 0 <= j < i - a implies #[trigger] s[j] != ',' by {
            assert(s[j] == c@[a + j]);
        }
        if i < b {
            assert(s[i - a] == c@[i as int]);
        }
        lemma_before_comma(s, i - a);
        assert(s.take(i - a) =~= c@.subrange(a as int, i as int));
    }
    i
}

/// Whether `c[a..b]` is exactly the characters of `lit`.
fn range_is(c: &Vec<char>, a: usize, b: usize, lit: &str) -> (r: bool)
    requires
        a <= b <= c@.len(),
    ensures
        r == (c@.subrange(a as int, b as int) == lit@),
{
    let l = chars_of(lit);
    if b - a != l.len() {
        return false;
    }
    let mut i: usize = 0;
    while i < l.len() && c[a + i] == l[i]
        invariant
            i <= l@.len(),
            l@.len() == b - a,
            b <= c@.len(),
            forall|j: int| 0 <= j < i ==> c@[a + j] == l@[j],
        decreases l@.len() - i,
    {
        i += 1;
    }
    proof {
        let s = c@.subrange(a as int, b as int);
        if i == l@.len() {
            assert(s =~= l@);
        } else {
            assert(s[i as int] != l@[i as int]);
        }
    }
    i == l.len()
}

/// The built-in layout id for the `setxkbmap` id `c[a..b]`, as a string.
fn mapped_setxkbmap_id(text: &str, c: &Vec<char>, a: usize, b: usize) -> (r: String)
    requires
        a <= b <= c@.len(),
        c@ == text@,
    ensures
        r@ == map_setxkbmap_id(c@.subrange(a as int, b as int)),
{
    if range_is(c, a, b, "us") || range_is(c, a, b, "us(intl)") {
        String::from_str("qwerty")
    } else if range_is(c, a, b, "ru") || range_is(c, a, b, "ru( phonetic)") {
        String::from_str("ru")
    } else if range_is(c, a, b, "gb") || range_is(c, a, b, "uk") || range_is(c, a, b, "de")
        || range_is(c, a, b, "fr") {
        String::from_str("qwerty")
    } else {
        String::from_str(text.substring_char(a, b))
    }
}

/// The built-in layout named in the output of `setxkbmap -query`, if a line
/// of it starts with "layout:".
pub fn layout_from_setxkbmap(text: &str) -> (r: Option<String>)
    ensures
        match (r, setxkbmap_layout(text@)) {
            (Some(s), Some(t)) => s@ == t,
            (None, None) => true,
            _ => false,
        },
{
    let c = chars_of(text);
    let n = c.len();
    let mut start: usize = 0;
    assert(c@.skip(0) =~= c@);
    while start < n
        invariant
            n == c@.len(),
            c@ == text@,
            start <= n,
            setxkbmap_layout(text@) == setxkbmap_layout(c@.skip(start as int)),
        decreases n - start,
    {
        let ghost t = c@.skip(start as int);
        let mut k = start;
        while k < n && c[k] != '\n'
            invariant
                start <= k <= n,
                n == c@.len(),
                forall|j: int| start <= j < k ==> #[trigger] c@[j] != '\n',
            decreases n - k,
        {
            k += 1;
        }
        let mut line_end = k;
        if k < n && k > start && c[k - 1] == '\r' {
            line_end = k - 1;
        }
        proof {
            assert forall|j: int| 0 <= j < k - start implies #[trigger] t[j] != '\n' by {
                assert(t[j] == c@[start + j]);
            }
            if k < n {
                assert(t[k - start] == c@[k as int]);
            }
            lemma_newline_index(t, k - start);
            assert(t.take(k - start) =~= c@.subrange(start as int, k as int));
            if k < n && k > start {
                assert(t.take(k - start).last() == c@[k - 1]);
            }
            assert(first_line(t) =~= c@.subrange(start as int, line_end as int));
        }
        let (ls, le) = trim_range(&c, start, line_end);
        if le - ls >= 7 && range_is(&c, ls, ls + 7, "layout:") {
            let (vs, ve) = trim_range(&c, ls + 7, le);
            let ce = before_comma_end(&c, vs, ve);
            let (is, ie) = trim_range(&c, vs, ce);
            proof {
                let line = trim(first_line(t));
                assert(line =~= c@.subrange(ls as int, le as int));
                assert(line.take(7) =~= c@.subrange(ls as int, ls + 7));
                assert(line.skip(7) =~= c@.subrange(ls + 7, le as int));
            }
            return Some(mapped_setxkbmap_id(text, &c, is, ie));
        }
        proof {
            let line = trim(first_line(t));
            assert(line =~= c@.subrange(ls as int, le as int));
            if line.len() >= 7 {
                assert(line.take(7) =~= c@.subrange(ls as int, ls + 7));
            }
        }
        if k >= n {
            return None;
        }
        proof {
            assert(t.skip(k - start + 1) =~= c@.skip(k + 1));
        }
        start = k + 1;
    }
    None
}

/// The built-in layout named by the value of `XKB_DEFAULT_LAYOUT`.
pub fn layout_from_env(value: &str) -> (r: String)
    ensures
        r@ == env_layout(value@),
{
    let c = chars_of(value);
    let n = c.len();
    let ce = before_comma_end(&c, 0, n);
    let (is, ie) = trim_range(&c, 0, ce);
    proof {
        assert(c@.subrange(0, n as int) =~= c@);
    }
    if range_is(&c, is, ie, "us") {
        String::from_str("qwerty")
    } else if range_is(&c, is, ie, "ru") {
        String::from_str("ru")
    } else {
        String::from_str(value.substring_char(is, ie))
    }
}

/// The layouts the `setxkbmap` ids stand for: `us`, `us(intl)`, `gb`, `uk`,
/// `de` and `fr` are all the built-in `qwerty`, `ru` and `ru( phonetic)` the
/// built-in `ru`, and any other id names a layout of its own name.
pub proof fn law_setxkbmap_ids(id: Seq<char>)
    ensures
        id == "us"@ || id == "us(intl)"@ || id == "gb"@ || id == "uk"@ || id == "de"@ || id
            == "fr"@ ==> map_setxkbmap_id(id) == "qwerty"@,
        id == "ru"@ || id == "ru( phonetic)"@ ==> map_setxkbmap_id(id) == "ru"@,
        !(id == "us"@ || id == "us(intl)"@ || id == "gb"@ || id == "uk"@ || id == "de"@ || id
            == "fr"@ || id == "ru"@ || id == "ru( phonetic)"@) ==> map_setxkbmap_id(id) == id,
{
    reveal_strlit("us");
    reveal_strlit("us(intl)");
    reveal_strlit("gb");
    reveal_strlit("uk");
    reveal_strlit("de");
    reveal_strlit("fr");
    reveal_strlit("ru");
    reveal_strlit("ru( phonetic)");
    reveal_strlit("qwerty");
    if id == "gb"@ || id == "de"@ || id == "fr"@ || id == "ru"@ {
        assert(id[0] != "us"@[0]);
        assert(id != "us"@);
    }
    if id == "gb"@ || id == "uk"@ || id == "de"@ || id == "fr"@ {
        assert(id[0] != "ru"@[0]);
        assert(id != "ru"@);
    }
    if id == "uk"@ {
        assert(id[1] != "us"@[1]);
        assert(id != "us"@);
    }
    if id == "ru"@ || id == "ru( phonetic)"@ {
        assert(id.len() != "us(intl)"@.len());
        assert(id != "us(intl)"@);
        assert(id[0] != "us"@[0]);
        assert(id != "us"@);
    }
}

/// The layouts the `XKB_DEFAULT_LAYOUT` ids stand for: `us` is the built-in
/// `qwerty`, `ru` the built-in `ru`, and any other id names a layout of its
/// own name.
pub proof fn law_env_ids(id: Seq<char>)
    ensures
        id == "us"@ ==> map_env_id(id) == "qwerty"@,
        id == "ru"@ ==> map_env_id(id) == "ru"@,
        id != "us"@ && id != "ru"@ ==> map_env_id(id) == id,
{
    reveal_strlit("us");
    reveal_strlit("ru");
    assert("ru"@[1] != "us"@[1]);
    assert("ru"@ != "us"@);
}

/// A `setxkbmap` line `layout:<id>`, where the id is a single word (no
/// white space, comma or line feed), names the built-in layout for that id.
pub proof fn law_setxkbmap_layout_line(id: Seq<char>)
    requires
        id.len() > 0,
        forall|j: int| 0 <= j < id.len() ==> !whitespace(#[trigger] id[j]) && id[j] != ','
            && id[j] != '\n',
    ensures
        setxkbmap_layout("layout:"@ + id) == Some(map_setxkbmap_id(id)),
{
    reveal_strlit("layout:");
    let t = "layout:"@ + id;
    assert forall|j: int| 0 <= j < t.len() implies #[trigger] t[j] != '\n' && !whitespace(t[j]) by {
        if j >= 7 {
            assert(t[j] == id[j - 7]);
        }
    }
    lemma_newline_index(t, t.len() as int);
    assert(t.take(t.len() as int) =~= t);
    assert(first_line(t) == t);
    lemma_trim_start(t, 0);
    assert(t.skip(0) =~= t);
    assert(t[t.len() - 1] == id[id.len() - 1]);
    lemma_trim_end(t, t.len() as int);
    assert(trim(first_line(t)) == t);
    assert(t.take(7) =~= "layout:"@);
    assert(t.skip(7) =~= id);
    lemma_trim_start(id, 0);
    assert(id.skip(0) =~= id);
    lemma_trim_end(id, id.len() as int);
    assert(id.take(id.len() as int) =~= id);
    assert(trim(id) == id);
    lemma_before_comma(id, id.len() as int);
    assert(before_comma(id) == id);
}

} // verus!

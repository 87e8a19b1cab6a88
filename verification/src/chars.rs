//! Character classification used to decide which characters are counted.
use vstd::prelude::*;

verus! {

/// First character of the lowercase mapping of `c`, as `char::to_lowercase`
/// yields it (Unicode tables of the standard library).
pub uninterp spec fn lowercase_first(c: char) -> Option<char>;

/// Whether `c` has the Unicode `Alphabetic` property, as `char::is_alphabetic`
/// reports it.
pub uninterp spec fn alphabetic(c: char) -> bool;

/// Whether `c` has the Unicode `White_Space` property (the property
/// `char::is_whitespace` reports): tab to carriage return, space, next line,
/// no-break space, ogham space mark, the spaces U+2000 to U+200A, line and
/// paragraph separators, narrow no-break space, medium mathematical space
/// and ideographic space.
pub open spec fn whitespace(c: char) -> bool {
    let v = c as u32;
    ||| 0x09 <= v <= 0x0D
    ||| v == 0x20
    ||| v == 0x85
    ||| v == 0xA0
    ||| v == 0x1680
    ||| 0x2000 <= v <= 0x200A
    ||| v == 0x2028
    ||| v == 0x2029
    ||| v == 0x202F
    ||| v == 0x205F
    ||| v == 0x3000
}

/// `c` is an ASCII capital letter, `A` to `Z`.
pub open spec fn ascii_upper(c: char) -> bool {
    0x41 <= (c as u32) <= 0x5A
}

/// Calls `char::to_lowercase` and takes the first character of the mapping.
/// Claims the result is `lowercase_first(c)` and that it is present: the
/// standard library documents that the iterator yields one or more
/// characters. For ASCII it claims what the Unicode tables give there: `A` to
/// `Z` map to `a` to `z`, every other ASCII character to itself.
#[verifier::external_body]
fn to_lowercase_first(c: char) -> (r: Option<char>)
    ensures
        r == lowercase_first(c),
        r is Some,
        ascii_upper(c) ==> r == Some(((c as u32) + 32) as char),
        (c as u32) < 0x80 && !ascii_upper(c) ==> r == Some(c),
{
    c.to_lowercase().next()
}

/// Calls `char::is_alphabetic`. Claims that the answer is `alphabetic(c)`,
/// and, for ASCII, what the Unicode tables give there: exactly the letters
/// `A` to `Z` and `a` to `z` are alphabetic.
#[verifier::external_body]
pub(crate) fn is_alphabetic(c: char) -> (r: bool)
    ensures
        r == alphabetic(c),
        (c as u32) < 0x80 ==> (r <==> ascii_upper(c) || (0x61 <= (c as u32) <= 0x7A)),
{
    c.is_alphabetic()
}

/// Whether `c` is a Unicode white-space character.
pub fn is_whitespace(c: char) -> (r: bool)
    ensures
        r == whitespace(c),
{
    let v = c as u32;
    (0x09 <= v && v <= 0x0D) || v == 0x20 || v == 0x85 || v == 0xA0 || v == 0x1680 || (0x2000 <= v
        && v <= 0x200A) || v == 0x2028 || v == 0x2029 || v == 0x202F || v == 0x205F || v == 0x3000
}

/// The lowercase form of `c` used for counting: the first character of its
/// lowercase mapping, or `c` itself if the mapping were empty.
pub open spec fn lower(c: char) -> char {
    match lowercase_first(c) {
        Some(l) => l,
        None => c,
    }
}

/// A character that is counted: a space or an alphabetic character.
pub open spec fn countable(c: char) -> bool {
    c == ' ' || alphabetic(c)
}

/// The lowercase form of `c` used for counting.
pub fn to_lower(c: char) -> (r: char)
    ensures
        r == lower(c),
        ascii_upper(c) ==> r == ((c as u32) + 32) as char,
        (c as u32) < 0x80 && !ascii_upper(c) ==> r == c,
{
    match to_lowercase_first(c) {
        Some(l) => l,
        None => c,
    }
}

/// Whether `c` is a space or alphabetic.
pub fn is_countable(c: char) -> (r: bool)
    ensures
        r == countable(c),
        (c as u32) < 0x80 ==> (r <==> c == ' ' || ascii_upper(c) || (0x61 <= (c as u32) <= 0x7A)),
{
    !(c != ' ' && !is_alphabetic(c))
}

} // verus!

//! Platform listener events and errors, and the decisions the listeners make
//! on raw input: which devices count as keyboards and how Windows scan codes
//! map to Linux ones.
use vstd::prelude::*;

verus! {

/// `std::io::Error`, carried by `Error::Io`. Opaque here.
#[verifier::external_type_specification]
#[verifier::external_body]
pub struct ExIoError(std::io::Error);

/// Events emitted by a platform listener.
#[derive(Debug, Clone, Copy, PartialEq, Eq, Structural)]
pub enum CoreEvent {
    KeyPress(u16),
}

/// Errors of the platform listeners.
#[derive(Debug)]
pub enum Error {
    Io(std::io::Error),
    Platform(String),
}

/// The Linux (evdev) code of a Windows make code: extended codes of the
/// right-hand modifiers and menu keys get their evdev numbers, other extended
/// codes have none, and non-extended codes are already evdev numbers.
pub open spec fn map_scan_code_spec(make_code: u16, is_extended: bool) -> Option<u16> {
    if is_extended {
        if make_code == 0x1D {
            Some(97u16)
        } else if make_code == 0x38 {
            Some(100u16)
        } else if make_code == 0x5B {
            Some(125u16)
        } else if make_code == 0x5C {
            Some(126u16)
        } else if make_code == 0x5D {
            Some(127u16)
        } else {
            None
        }
    } else {
        Some(make_code)
    }
}

/// Translate a Windows low-level keyboard make code to the Linux key code the
/// rest of the program uses.
pub fn map_scan_code(make_code: u16, is_extended: bool) -> (r: Option<u16>)
    ensures
        r == map_scan_code_spec(make_code, is_extended),
{
    if is_extended {
        match make_code {
            0x1D => Some(97),  // right Ctrl
            0x38 => Some(100),  // right Alt
            0x5B => Some(125),  // left Win
            0x5C => Some(126),  // right Win
            0x5D => Some(127),  // menu
            _ => None,
        }
    } else {
        Some(make_code)
    }
}

/// Whether a key event's value from the Linux input layer is a key going
/// down: the layer reports 1 for down, 0 for up and 2 for auto-repeat, and
/// only the first is a key press.
pub fn is_key_down(value: i32) -> (r: bool)
    ensures
        r == (value == 1),
{
    value == 1
}

/// Lowercase form of a string as `str::to_lowercase` produces it (Unicode
/// tables of the standard library).
pub uninterp spec fn lowercase_str(s: Seq<char>) -> Seq<char>;

/// Calls `str::to_lowercase`. Claims only that the result is
/// `lowercase_str(s@)`.
#[verifier::external_body]
fn str_to_lowercase(s: &str) -> (r: String)
    ensures
        r@ == lowercase_str(s@),
{
    s.to_lowercase()
}

/// `needle` occurs in `hay` as a contiguous run.
pub open spec fn has_substring(hay: Seq<char>, needle: Seq<char>) -> bool {
    exists|i: int| 0 <= i <= hay.len() - needle.len() && #[trigger] hay.subrange(i, i + needle.len()) == needle
}

/// The characters of `s`.
pub fn chars_of(s: &str) -> (r: Vec<char>)
    ensures
        r@ == s@,
{
    let n = s.unicode_len();
    let mut r: Vec<char> = Vec::new();
    for i in 0..n
        invariant
            n == s@.len(),
            r@ == s@.subrange(0, i as int),
    {
        r.push(s.get_char(i));
        proof {
            assert(r@ =~= s@.subrange(0, i + 1));
        }
    }
    proof {
        assert(r@ =~= s@);
    }
    r
}

/// Whether `needle` occurs in `hay`.
pub fn contains_chars(hay: &Vec<char>, needle: &Vec<char>) -> (r: bool)
    ensures
        r == has_substring(hay@, needle@),
{
    let h = hay.len();
    let m = needle.len();
    if m > h {
        proof {
            assert forall|i: int| 0 <= i <= h - m implies #[trigger] hay@.subrange(i, i + m) != needle@ by {}
        }
        return false;
    }
    let mut i: usize = 0;
    while i <= h - m
        invariant
            h == hay@.len(),
            m == needle@.len(),
            m <= h,
            i <= h - m + 1,
            forall|a: int| 0 <= a < i ==> #[trigger] hay@.subrange(a, a + m) != needle@,
        decreases h - m + 1 - i,
    {
        let mut j: usize = 0;
        while j < m && hay[i + j] == needle[j]
            invariant
                j <= m,
                i + m <= h,
                h == hay@.len(),
                m == needle@.len(),
                forall|b: int| 0 <= b < j ==> hay@[i + b] == needle@[b],
            decreases m - j,
        {
            j += 1;
        }
        if j == m {
            proof {
                assert(hay@.subrange(i as int, i + m) =~= needle@);
            }
            return true;
        }
        proof {
            assert(hay@.subrange(i as int, i + m)[j as int] != needle@[j as int]);
        }
        i += 1;
    }
    false
}

/// Device names (lowercased) containing one of these words are not
/// keyboards.
pub open spec fn skipped_device_name(name: Seq<char>) -> bool {
    ||| has_substring(name, "mouse"@)
    ||| has_substring(name, "touchpad"@)
    ||| has_substring(name, "trackpoint"@)
    ||| has_substring(name, "power"@)
    ||| has_substring(name, "button"@)
    ||| has_substring(name, "video"@)
    ||| has_substring(name, "lid"@)
    ||| has_substring(name, "tablet"@)
    ||| has_substring(name, "joystick"@)
}

/// Whether a device that reports keys, named `name`, is taken as a keyboard:
/// its lowercased name contains none of the skipped words, or is empty.
pub fn is_keyboard_device_name(name: &str) -> (r: bool)
    ensures
        r == (!skipped_device_name(lowercase_str(name@)) || lowercase_str(name@).len() == 0),
        lowercase_str(name@).len() > 0 && (has_substring(lowercase_str(name@), "mouse"@)
            || has_substring(lowercase_str(name@), "touchpad"@)
            || has_substring(lowercase_str(name@), "trackpoint"@)
            || has_substring(lowercase_str(name@), "power"@)
            || has_substring(lowercase_str(name@), "button"@)
            || has_substring(lowercase_str(name@), "video"@)
            || has_substring(lowercase_str(name@), "lid"@)
            || has_substring(lowercase_str(name@), "tablet"@)
            || has_substring(lowercase_str(name@), "joystick"@)) ==> !r,
{
    let lower = str_to_lowercase(name);
    let hay = chars_of(lower.as_str());
    let skipped = contains_chars(&hay, &chars_of("mouse")) || contains_chars(
        &hay,
        &chars_of("touchpad"),
    ) || contains_chars(&hay, &chars_of("trackpoint")) || contains_chars(
        &hay,
        &chars_of("power"),
    ) || contains_chars(&hay, &chars_of("button")) || contains_chars(&hay, &chars_of("video"))
        || contains_chars(&hay, &chars_of("lid")) || contains_chars(&hay, &chars_of("tablet"))
        || contains_chars(&hay, &chars_of("joystick"));
    !skipped || hay.len() == 0
}

/// A device whose lowercased name `lowered` is not empty and contains one of
/// the words mouse, touchpad, trackpoint, power, button, video, lid, tablet
/// or joystick is not taken as a keyboard (`is_keyboard_device_name` gives
/// `!skipped_device_name(lowered) || lowered.len() == 0` for it).
pub proof fn law_skipped_device_words(lowered: Seq<char>, w: Seq<char>)
    requires
        lowered.len() > 0,
        has_substring(lowered, w),
        w == "mouse"@
            || w == "touchpad"@
            || w == "trackpoint"@
            || w == "power"@
            || w == "button"@
            || w == "video"@
            || w == "lid"@
            || w == "tablet"@
            || w == "joystick"@,
    ensures
        !(!skipped_device_name(lowered) || lowered.len() == 0),
{
}

/// A device whose lowercased name `lowered` contains none of those words, or
/// is empty, is taken as a keyboard.
pub proof fn law_keyboard_device_words(lowered: Seq<char>)
    requires
        lowered.len() == 0 || (!has_substring(lowered, "mouse"@)
            && !has_substring(lowered, "touchpad"@)
            && !has_substring(lowered, "trackpoint"@)
            && !has_substring(lowered, "power"@)
            && !has_substring(lowered, "button"@)
            && !has_substring(lowered, "video"@)
            && !has_substring(lowered, "lid"@)
            && !has_substring(lowered, "tablet"@)
            && !has_substring(lowered, "joystick"@)),
    ensures
        !skipped_device_name(lowered) || lowered.len() == 0,
{
}

} // verus!

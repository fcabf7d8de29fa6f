//! Text offsets between the web view's UTF-16 positions and the byte
//! positions of the composer's text, and the call timer.

use vstd::prelude::*;

use crate::dates;
use crate::text;

verus! {

broadcast use vstd::string::group_string_axioms;

/// How many bytes UTF-8 takes for `c` (`char::len_utf8`).
pub open spec fn utf8_len(c: char) -> int {
    if (c as u32) < 0x80 {
        1
    } else if (c as u32) < 0x800 {
        2
    } else if (c as u32) < 0x10000 {
        3
    } else {
        4
    }
}

/// How many code units UTF-16 takes for `c` (`char::len_utf16`).
pub open spec fn utf16_len(c: char) -> int {
    if (c as u32) < 0x10000 {
        1
    } else {
        2
    }
}

/// The length of `s` in UTF-8 bytes.
pub open spec fn byte_len(s: Seq<char>) -> int
    decreases s.len(),
{
    if s.len() == 0 {
        0
    } else {
        utf8_len(s[0]) + byte_len(s.drop_first())
    }
}

/// The byte position of the character holding the UTF-16 unit at
/// `target`: the first character that ends past `target`; the text's length
/// when there is none.
pub open spec fn utf16_to_byte_spec(s: Seq<char>, target: int) -> int
    decreases s.len(),
{
    if s.len() == 0 {
        0
    } else if utf16_len(s[0]) > target {
        0
    } else {
        utf8_len(s[0]) + utf16_to_byte_spec(s.drop_first(), target - utf16_len(s[0]))
    }
}

/// Does byte position `b` fall between characters of `s` (or at or past
/// its end)?
pub open spec fn on_boundary(s: Seq<char>, b: int) -> bool
    decreases s.len(),
{
    if s.len() == 0 || b <= 0 {
        true
    } else {
        utf8_len(s[0]) <= b && on_boundary(s.drop_first(), b - utf8_len(s[0]))
    }
}

/// The number of UTF-16 units of the text before byte position `b` (all of
/// it when `b` is past the end).
pub open spec fn utf16_before(s: Seq<char>, b: int) -> int
    decreases s.len(),
{
    if s.len() == 0 || b <= 0 {
        0
    } else {
        utf16_len(s[0]) + utf16_before(s.drop_first(), b - utf8_len(s[0]))
    }
}

fn utf8_len_of(c: char) -> (n: usize)
    ensures
        n == utf8_len(c),
{
    let v = c as u32;
    if v < 0x80 {
        1
    } else if v < 0x800 {
        2
    } else if v < 0x10000 {
        3
    } else {
        4
    }
}

fn utf16_len_of(c: char) -> (n: usize)
    ensures
        n == utf16_len(c),
{
    if (c as u32) < 0x10000 {
        1
    } else {
        2
    }
}

/// The byte position of the character holding UTF-16 unit `target` of
/// `text`, or `text`'s length in bytes when `target` is past its end.
pub fn utf16_to_byte(text: &str, target: usize) -> (r: usize)
    requires
        4 * text@.len() <= usize::MAX,
    ensures
        r == utf16_to_byte_spec(text@, target as int),
{
    let chars = text::to_chars(text);
    let ghost s = chars@;
    let mut units: usize = 0;
    let mut index: usize = 0;
    let mut i: usize = 0;
    assert(s.skip(0) =~= s);
    while i < chars.len()
        invariant
            s == chars@,
            s == text@,
            4 * s.len() <= usize::MAX,
            i <= s.len(),
            units <= target,
            index <= 4 * i,
            utf16_to_byte_spec(s, target as int) == index + utf16_to_byte_spec(s.skip(i as int), target - units),
        decreases s.len() - i,
    {
        let c = chars[i];
        let w = utf16_len_of(c);
        assert(s.skip(i as int)[0] == c);
        assert(s.skip(i as int).drop_first() =~= s.skip(i + 1));
        if w > target - units {
            return index;
        }
        units = units + w;
        index = index + utf8_len_of(c);
        i = i + 1;
    }
    index
}

/// The number of UTF-16 units of `text` before byte position `byte`, or
/// of all of it when `byte` is past the end. `byte` must not fall inside a
/// character.
pub fn byte_to_utf16(text: &str, byte: usize) -> (r: usize)
    requires
        on_boundary(text@, byte as int),
        2 * text@.len() <= usize::MAX,
    ensures
        r == utf16_before(text@, byte as int),
{
    let chars = text::to_chars(text);
    let ghost s = chars@;
    let mut units: usize = 0;
    let mut seen: usize = 0;
    let mut i: usize = 0;
    assert(s.skip(0) =~= s);
    while i < chars.len() && seen < byte
        invariant
            s == chars@,
            s == text@,
            2 * s.len() <= usize::MAX,
            i <= s.len(),
            seen <= byte,
            units <= 2 * i,
            on_boundary(s.skip(i as int), byte - seen),
            utf16_before(s, byte as int) == units + utf16_before(s.skip(i as int), byte - seen),
        decreases s.len() - i,
    {
        let c = chars[i];
        assert(s.skip(i as int)[0] == c);
        assert(s.skip(i as int).drop_first() =~= s.skip(i + 1));
        units = units + utf16_len_of(c);
        seen = seen + utf8_len_of(c);
        i = i + 1;
    }
    units
}

/// A call's running time: `m:ss`, or `h:mm:ss` from an hour on.
pub open spec fn elapsed_spec(seconds: u64) -> Seq<char> {
    let h = seconds / 3600;
    let m = seconds / 60 % 60;
    let s = seconds % 60;
    if h > 0 {
        text::decimal(h as nat) + ":"@ + dates::zero_pad(m as nat, 2) + ":"@ + dates::zero_pad(s as nat, 2)
    } else {
        text::decimal(m as nat) + ":"@ + dates::zero_pad(s as nat, 2)
    }
}

pub fn elapsed_label(seconds: u64) -> (r: String)
    ensures
        r@ == elapsed_spec(seconds),
{
    let hours = seconds / 3600;
    let minutes = seconds / 60 % 60;
    let secs = seconds % 60;
    let mut out = String::new();
    if hours > 0 {
        text::push_str(&mut out, text::decimal_string(hours).as_str());
        text::push_char(&mut out, ':');
        text::push_str(&mut out, dates::zero_padded(minutes, 2).as_str());
    } else {
        text::push_str(&mut out, text::decimal_string(minutes).as_str());
    }
    text::push_char(&mut out, ':');
    text::push_str(&mut out, dates::zero_padded(secs, 2).as_str());
    proof {
        reveal_strlit(":");
    }
    out
}

/// A byte position between characters, turned into UTF-16 units and back,
/// is the same position.
pub proof fn law_utf16_round_trip(s: Seq<char>, b: int)
    requires
        on_boundary(s, b),
        0 <= b <= byte_len(s),
    ensures
        utf16_to_byte_spec(s, utf16_before(s, b)) == b,
    decreases s.len(),
{
    if s.len() > 0 && b > 0 {
        law_utf16_round_trip(s.drop_first(), b - utf8_len(s[0]));
    }
}

} // verus!

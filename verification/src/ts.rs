//! Slack message timestamps (`"<seconds>.<sequence>"`) and date labels.

use vstd::prelude::*;

use crate::text;

verus! {

broadcast use vstd::string::group_string_axioms;

pub open spec fn is_dot() -> spec_fn(char) -> bool {
    |c: char| c == '.'
}

pub open spec fn parsed_or_zero(s: Seq<char>) -> u64 {
    match text::parse_u64_spec(s) {
        Some(v) => v,
        None => 0,
    }
}

/// The numeric sort key of a timestamp: the text before the first `.` and
/// the text after it, each parsed as an unsigned integer (0 when it does not
/// parse, or when there is no `.`).
pub open spec fn ts_key_spec(s: Seq<char>) -> (u64, u64) {
    let d = text::first_where(s, is_dot());
    let secs = parsed_or_zero(s.take(d as int));
    let seq = if d < s.len() {
        parsed_or_zero(s.skip((d + 1) as int))
    } else {
        0
    };
    (secs, seq)
}

/// Lexicographic `<` on timestamp keys.
pub open spec fn key_lt(a: (u64, u64), b: (u64, u64)) -> bool {
    a.0 < b.0 || (a.0 == b.0 && a.1 < b.1)
}

/// Lexicographic `<=` on timestamp keys.
pub open spec fn key_le(a: (u64, u64), b: (u64, u64)) -> bool {
    key_lt(a, b) || a == b
}

/// Parses a character sequence as `u64`, or 0.
pub fn parse_or_zero(v: &[char]) -> (r: u64)
    ensures
        r == parsed_or_zero(v@),
{
    match text::parse_u64(v) {
        Some(x) => x,
        None => 0,
    }
}

/// Splits a timestamp into its numeric `(seconds, sequence)` key.
#[verifier::spinoff_prover]
pub fn ts_key(ts: &str) -> (r: (u64, u64))
    ensures
        r == ts_key_spec(ts@),
{
    let v = text::to_chars(ts);
    let n = v.len();
    let mut d: usize = 0;
    while d < n && v[d] != '.'
        invariant
            d <= n,
            n == v@.len(),
            forall|k: int| 0 <= k < d ==> !is_dot()(#[trigger] v@[k]),
        decreases n - d,
    {
        d = d + 1;
    }
    proof {
        text::lemma_first_where(v@, is_dot(), d as int);
    }
    let secs = parse_or_zero(&v.as_slice()[0..d]);
    assert(v@.subrange(0, d as int) =~= v@.take(d as int));
    let seq = if d < n {
        assert(v@.subrange(d + 1, n as int) =~= v@.skip(d + 1));
        parse_or_zero(&v.as_slice()[d + 1..n])
    } else {
        0
    };
    (secs, seq)
}

/// English ordinal suffix of a day of the month.
pub open spec fn ordinal_suffix(day: nat) -> Seq<char> {
    if 11 <= day % 100 && day % 100 <= 13 {
        seq!['t', 'h']
    } else if day % 10 == 1 {
        seq!['s', 't']
    } else if day % 10 == 2 {
        seq!['n', 'd']
    } else if day % 10 == 3 {
        seq!['r', 'd']
    } else {
        seq!['t', 'h']
    }
}

/// `1st`, `2nd`, `3rd`, `4th`, `11th`, `22nd`, ...
pub fn ordinal_day(day: u32) -> (s: String)
    ensures
        s@ == text::decimal(day as nat) + ordinal_suffix(day as nat),
{
    let mut s = text::decimal_string(day as u64);
    let (a, b) = if 11 <= day % 100 && day % 100 <= 13 {
        ('t', 'h')
    } else if day % 10 == 1 {
        ('s', 't')
    } else if day % 10 == 2 {
        ('n', 'd')
    } else if day % 10 == 3 {
        ('r', 'd')
    } else {
        ('t', 'h')
    };
    text::push_char(&mut s, a);
    text::push_char(&mut s, b);
    assert(s@ =~= text::decimal(day as nat) + ordinal_suffix(day as nat));
    s
}

} // verus!

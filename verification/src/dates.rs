//! Message times as Slack shows them: `14:05`, `2024-03-01`, "Today",
//! "Yesterday", "Friday, March 1st", "5m ago".

use vstd::prelude::*;

use crate::clock::{LocalDateTime, local_date_time, local_now};
use crate::text;
use crate::ts;

verus! {

broadcast use vstd::string::group_string_axioms;

// ---------------------------------------------------------------------------
// Models
// ---------------------------------------------------------------------------

/// `n` in decimal, zero-padded on the left to `width` digits (`{:0w}`).
pub open spec fn zero_pad(n: nat, width: nat) -> Seq<char> {
    let d = text::decimal(n);
    if d.len() >= width {
        d
    } else {
        Seq::new((width - d.len()) as nat, |i: int| '0') + d
    }
}

/// A signed number zero-padded to `width` characters, sign included
/// (`{:0w}`).
pub open spec fn pad_signed(y: int, width: nat) -> Seq<char> {
    if y < 0 {
        seq!['-'] + zero_pad((-y) as nat, if width > 0 { (width - 1) as nat } else { 0 })
    } else {
        zero_pad(y as nat, width)
    }
}

/// `%H:%M`.
pub open spec fn hm_spec(t: LocalDateTime) -> Seq<char> {
    zero_pad(t.hour as nat, 2) + seq![':'] + zero_pad(t.minute as nat, 2)
}

/// `YYYY-MM-DD`.
pub open spec fn date_key_spec(t: LocalDateTime) -> Seq<char> {
    pad_signed(t.year as int, 4) + seq!['-'] + zero_pad(t.month as nat, 2) + seq!['-'] + zero_pad(t.day as nat, 2)
}

/// The English name of a weekday, Monday being 0 (`%A`).
pub open spec fn weekday_name(w: u32) -> Seq<char> {
    if w == 0 {
        "Monday"@
    } else if w == 1 {
        "Tuesday"@
    } else if w == 2 {
        "Wednesday"@
    } else if w == 3 {
        "Thursday"@
    } else if w == 4 {
        "Friday"@
    } else if w == 5 {
        "Saturday"@
    } else {
        "Sunday"@
    }
}

/// The English name of a month, January being 1 (`%B`).
pub open spec fn month_name(m: u32) -> Seq<char> {
    if m == 1 {
        "January"@
    } else if m == 2 {
        "February"@
    } else if m == 3 {
        "March"@
    } else if m == 4 {
        "April"@
    } else if m == 5 {
        "May"@
    } else if m == 6 {
        "June"@
    } else if m == 7 {
        "July"@
    } else if m == 8 {
        "August"@
    } else if m == 9 {
        "September"@
    } else if m == 10 {
        "October"@
    } else if m == 11 {
        "November"@
    } else {
        "December"@
    }
}

/// The seconds part of a message timestamp.
pub open spec fn ts_secs(ts: Seq<char>) -> u64 {
    ts::ts_key_spec(ts).0
}

/// The label of a day: "Today", "Yesterday", else "Friday, March 1st"; the
/// timestamp itself when it has no local date.
pub open spec fn date_label_spec(ts: Seq<char>, date: Option<LocalDateTime>, today: LocalDateTime) -> Seq<char> {
    match date {
        None => ts,
        Some(d) => if d.same_date(today) {
            "Today"@
        } else if today.day_number - d.day_number == 1 {
            "Yesterday"@
        } else {
            weekday_name(d.weekday) + ", "@ + month_name(d.month) + seq![' '] + text::decimal(d.day as nat)
                + ts::ordinal_suffix(d.day as nat)
        },
    }
}

/// Seconds from a message to `now`: `now - secs` in `i64`, saturating, and
/// never below zero.
pub open spec fn elapsed_secs(now: i64, secs: u64) -> nat {
    let d = now - (secs as i64);
    if d <= 0 {
        0
    } else if d > i64::MAX {
        i64::MAX as nat
    } else {
        d as nat
    }
}

/// "now", "5m ago", "3h ago" or "2d ago" for less than a week.
pub open spec fn band_spec(e: nat) -> Seq<char> {
    if e < 60 {
        "now"@
    } else if e < 3600 {
        text::decimal(e / 60) + "m ago"@
    } else if e < 86400 {
        text::decimal(e / 3600) + "h ago"@
    } else {
        text::decimal(e / 86400) + "d ago"@
    }
}

/// "now", "5m ago", "3h ago", "2d ago", else the day's label.
pub open spec fn relative_spec(ts: Seq<char>, now: i64, date: Option<LocalDateTime>, today: LocalDateTime) -> Seq<char> {
    let e = elapsed_secs(now, ts_secs(ts));
    if e < 604800 {
        band_spec(e)
    } else {
        date_label_spec(ts, date, today)
    }
}

// ---------------------------------------------------------------------------
// Formatting
// ---------------------------------------------------------------------------

/// `n` zero-padded to `width` digits.
pub fn zero_padded(n: u64, width: usize) -> (s: String)
    ensures
        s@ == zero_pad(n as nat, width as nat),
{
    let d = text::decimal_string(n);
    let len = d.as_str().unicode_len();
    if len >= width {
        return d;
    }
    let mut s = String::new();
    let mut i: usize = 0;
    while i < width - len
        invariant
            i <= width - len,
            s@ == Seq::new(i as nat, |k: int| '0'),
        decreases width - len - i,
    {
        text::push_char(&mut s, '0');
        i = i + 1;
        assert(s@ =~= Seq::new(i as nat, |k: int| '0'));
    }
    text::push_str(&mut s, d.as_str());
    s
}

/// A signed number zero-padded to `width` characters, sign included.
fn signed_padded(y: i32, width: usize) -> (s: String)
    requires
        width > 0,
    ensures
        s@ == pad_signed(y as int, width as nat),
{
    if y < 0 {
        let mut s = String::new();
        text::push_char(&mut s, '-');
        let m: i64 = -(y as i64);
        let p = zero_padded(m as u64, width - 1);
        text::push_str(&mut s, p.as_str());
        s
    } else {
        zero_padded(y as u64, width)
    }
}

/// The weekday's English name.
fn weekday_text(w: u32) -> (s: &'static str)
    ensures
        s@ == weekday_name(w),
{
    if w == 0 {
        "Monday"
    } else if w == 1 {
        "Tuesday"
    } else if w == 2 {
        "Wednesday"
    } else if w == 3 {
        "Thursday"
    } else if w == 4 {
        "Friday"
    } else if w == 5 {
        "Saturday"
    } else {
        "Sunday"
    }
}

/// The month's English name.
fn month_text(m: u32) -> (s: &'static str)
    ensures
        s@ == month_name(m),
{
    if m == 1 {
        "January"
    } else if m == 2 {
        "February"
    } else if m == 3 {
        "March"
    } else if m == 4 {
        "April"
    } else if m == 5 {
        "May"
    } else if m == 6 {
        "June"
    } else if m == 7 {
        "July"
    } else if m == 8 {
        "August"
    } else if m == 9 {
        "September"
    } else if m == 10 {
        "October"
    } else if m == 11 {
        "November"
    } else {
        "December"
    }
}

/// `%H:%M` of a local time.
pub fn hm_text(t: LocalDateTime) -> (s: String)
    ensures
        s@ == hm_spec(t),
{
    let mut s = zero_padded(t.hour as u64, 2);
    text::push_char(&mut s, ':');
    let m = zero_padded(t.minute as u64, 2);
    text::push_str(&mut s, m.as_str());
    s
}

/// `YYYY-MM-DD` of a local date.
pub fn date_key_text(t: LocalDateTime) -> (s: String)
    ensures
        s@ == date_key_spec(t),
{
    let mut s = signed_padded(t.year, 4);
    text::push_char(&mut s, '-');
    let m = zero_padded(t.month as u64, 2);
    text::push_str(&mut s, m.as_str());
    text::push_char(&mut s, '-');
    let d = zero_padded(t.day as u64, 2);
    text::push_str(&mut s, d.as_str());
    s
}

/// The label of a message's day, given its local date and today's.
pub fn date_label_at(ts: &str, date: Option<LocalDateTime>, today: LocalDateTime) -> (s: String)
    ensures
        s@ == date_label_spec(ts@, date, today),
{
    let d = match date {
        None => return text::owned(ts),
        Some(d) => d,
    };
    if d.year == today.year && d.month == today.month && d.day == today.day {
        return text::owned("Today");
    }
    if (today.day_number as i64) - (d.day_number as i64) == 1 {
        return text::owned("Yesterday");
    }
    let mut s = text::owned(weekday_text(d.weekday));
    text::push_str(&mut s, ", ");
    text::push_str(&mut s, month_text(d.month));
    text::push_char(&mut s, ' ');
    let day = ts::ordinal_day(d.day);
    text::push_str(&mut s, day.as_str());
    s
}

/// The label for less than a week ago.
fn band_label(e: u64) -> (s: String)
    requires
        e < 604800,
    ensures
        s@ == band_spec(e as nat),
{
    if e < 60 {
        text::owned("now")
    } else if e < 3600 {
        let mut s = text::decimal_string(e / 60);
        text::push_str(&mut s, "m ago");
        s
    } else if e < 86400 {
        let mut s = text::decimal_string(e / 3600);
        text::push_str(&mut s, "h ago");
        s
    } else {
        let mut s = text::decimal_string(e / 86400);
        text::push_str(&mut s, "d ago");
        s
    }
}

/// A relative label of a message time, given the current Unix time, the
/// message's local date and today's.
pub fn relative_label_at(ts: &str, now: i64, date: Option<LocalDateTime>, today: LocalDateTime) -> (s: String)
    ensures
        s@ == relative_spec(ts@, now, date, today),
{
    let secs = ts::ts_key(ts).0;
    let e = elapsed_since(now, secs);
    if e < 604800 {
        band_label(e)
    } else {
        date_label_at(ts, date, today)
    }
}

/// Seconds from `secs` to `now`, saturating, never negative.
fn elapsed_since(now: i64, secs: u64) -> (e: u64)
    ensures
        e as nat == elapsed_secs(now, secs),
{
    let s: i64 = #[verifier::truncate] (secs as i64);
    let d: i128 = (now as i128) - (s as i128);
    if d <= 0 {
        0
    } else if d > (i64::MAX as i128) {
        i64::MAX as u64
    } else {
        d as u64
    }
}

// ---------------------------------------------------------------------------
// With the clock
// ---------------------------------------------------------------------------

/// No local time, or a well-formed one.
pub open spec fn valid_opt(t: Option<LocalDateTime>) -> bool {
    t matches Some(x) ==> x.wf()
}

/// Can the local calendar give `t` for the time of timestamp `ts`? Its
/// fields are in range, and a time from 1970 through the year 9999 always
/// has a date.
pub open spec fn local_reading(ts: Seq<char>, t: Option<LocalDateTime>) -> bool {
    &&& valid_opt(t)
    &&& ts_secs(ts) <= crate::clock::LAST_FOUR_DIGIT_YEAR_SECOND ==> t is Some
}

/// `%H:%M` of a local time, or the seconds when there is none.
pub open spec fn hm_or_secs(ts: Seq<char>, t: Option<LocalDateTime>) -> Seq<char> {
    match t {
        Some(x) => hm_spec(x),
        None => text::decimal(ts_secs(ts) as nat),
    }
}

/// `YYYY-MM-DD` of a local date, if there is one.
pub open spec fn date_key_opt(t: Option<LocalDateTime>) -> Option<Seq<char>> {
    match t {
        Some(x) => Some(date_key_spec(x)),
        None => None,
    }
}

/// `HH:MM` of a message time in local time, or its seconds when it has no
/// local time.
pub fn format_ts_hm(ts: &str) -> (s: String)
    ensures
        exists|t: Option<LocalDateTime>| local_reading(ts@, t) && s@ == #[trigger] hm_or_secs(ts@, t),
{
    let secs = ts::ts_key(ts).0;
    let t = local_date_time(#[verifier::truncate] (secs as i64));
    let s = match t {
        Some(x) => hm_text(x),
        None => text::decimal_string(secs),
    };
    assert(s@ == hm_or_secs(ts@, t));
    s
}

/// `YYYY-MM-DD` of a message time in local time.
pub fn date_key_for_ts(ts: &str) -> (r: Option<String>)
    ensures
        exists|t: Option<LocalDateTime>| local_reading(ts@, t) && text::string_opt(r) == #[trigger] date_key_opt(t),
{
    let secs = ts::ts_key(ts).0;
    let t = local_date_time(#[verifier::truncate] (secs as i64));
    let r = match t {
        Some(x) => Some(date_key_text(x)),
        None => None,
    };
    assert(text::string_opt(r) == date_key_opt(t));
    r
}

/// The label of a message's day: "Today", "Yesterday", else e.g.
/// "Friday, March 1st".
pub fn format_ts_date_label(ts: &str) -> (s: String)
    ensures
        exists|date: Option<LocalDateTime>, today: LocalDateTime|
            local_reading(ts@, date) && today.wf() && s@ == #[trigger] date_label_spec(ts@, date, today),
{
    let secs = ts::ts_key(ts).0;
    let date = local_date_time(#[verifier::truncate] (secs as i64));
    let today = local_now();
    date_label_at(ts, date, today)
}

/// How long ago a message was sent: "now", "5m ago", "3h ago", "2d ago",
/// else its day's label.
pub fn format_relative_ts(ts: &str) -> (s: String)
    ensures
        exists|now: i64, date: Option<LocalDateTime>, today: LocalDateTime|
            local_reading(ts@, date) && today.wf() && s@ == #[trigger] relative_spec(ts@, now, date, today),
{
    let now = crate::state::now_secs();
    let secs = ts::ts_key(ts).0;
    let e = elapsed_since(now, secs);
    if e < 604800 {
        let s = band_label(e);
        let ghost today = LocalDateTime { year: 1, month: 1, day: 1, hour: 0, minute: 0, weekday: 0, day_number: 1 };
        assert(local_reading(ts@, Some(today)) && today.wf() && s@ == relative_spec(ts@, now, Some(today), today));
        return s;
    }
    let s = format_ts_date_label(ts);
    let ghost (date, today) = choose|date: Option<LocalDateTime>, today: LocalDateTime|
        local_reading(ts@, date) && today.wf() && s@ == date_label_spec(ts@, date, today);
    assert(local_reading(ts@, date) && today.wf() && s@ == relative_spec(ts@, now, date, today));
    s
}

} // verus!

//! Small readings of the workspace for the side panels: the unread list,
//! profiles and search results.

use vstd::prelude::*;

use chrono::TimeZone;

use crate::clock::LAST_FOUR_DIGIT_YEAR_SECOND;
use crate::keyed;
use crate::labels;
use crate::sidebar;
use crate::models::{Channel, JsonScalar, Message};
use crate::state::Workspace;
use crate::text;
use crate::timeline::ChannelMessages;
use crate::ts;

verus! {

broadcast use vstd::string::group_string_axioms;

// ---------------------------------------------------------------------------
// Unreads
// ---------------------------------------------------------------------------

/// Which end of the Unreads list comes first.
#[derive(Debug, Clone, Copy, PartialEq, Eq, Structural)]
pub enum UnreadsSort {
    Newest,
    Oldest,
}

/// The positions, among the first `n` of the workspace's channel table, of
/// the channels with unreads, in table order.
pub open spec fn unread_positions(ws: Workspace, n: nat) -> Seq<usize>
    decreases n,
{
    if n == 0 {
        Seq::empty()
    } else {
        let prev = unread_positions(ws, (n - 1) as nat);
        if crate::state::unread_total_spec(ws.messages@, ws.channels@[n - 1].1) > 0 {
            prev.push((n - 1) as usize)
        } else {
            prev
        }
    }
}

/// What the Unreads list sorts a channel by: the most recent first, then by
/// id.
pub open spec fn recency_key_at(ws: Workspace) -> spec_fn(usize) -> (u64, Seq<char>, Seq<char>) {
    |k: usize|
        (
            crate::state::recency_spec(ws.messages@, ws.channels@[k as int].1),
            Seq::<char>::empty(),
            ws.channels@[k as int].1.id@,
        )
}

/// The channels with unreads, as positions in the workspace's channel
/// table: the most recently active first (`Newest`), or the reverse
/// (`Oldest`).
pub fn ordered_channels(ws: &Workspace, sort: UnreadsSort) -> (r: Vec<usize>)
    ensures
        r@.to_multiset() == unread_positions(*ws, ws.channels@.len()).to_multiset(),
        sort == UnreadsSort::Newest ==> sidebar::in_order(r@, recency_key_at(*ws)),
        sort == UnreadsSort::Oldest ==> sidebar::in_reverse_order(r@, recency_key_at(*ws)),
{
    let ghost kf = recency_key_at(*ws);
    let mut items: Vec<usize> = Vec::new();
    let mut keys: Vec<sidebar::SortKey> = Vec::new();
    let mut k: usize = 0;
    while k < ws.channels.len()
        invariant
            k <= ws.channels@.len(),
            kf == recency_key_at(*ws),
            items@ == unread_positions(*ws, k as nat),
            items@.len() == keys@.len(),
            forall|j: int| 0 <= j < keys@.len() ==> (#[trigger] keys@[j])@ == kf(items@[j]),
        decreases ws.channels@.len() - k,
    {
        let c = &ws.channels[k].1;
        if ws.unread_total(c) > 0 {
            let key = sidebar::SortKey { rank: ws.channel_recency(c), name: Vec::new(), id: text::to_chars(c.id.as_str()) };
            assert(key@ == kf(k));
            items.push(k);
            keys.push(key);
        }
        k = k + 1;
    }
    let sorted = sidebar::sort_items(items, keys, Ghost(kf));
    match sort {
        UnreadsSort::Newest => sorted,
        UnreadsSort::Oldest => {
            let mut rev: Vec<usize> = Vec::new();
            let mut i: usize = sorted.len();
            while i > 0
                invariant
                    i <= sorted@.len(),
                    rev@ =~= sorted@.skip(i as int).reverse(),
                decreases i,
            {
                i = i - 1;
                rev.push(sorted[i]);
                assert(sorted@.skip(i as int) =~= seq![sorted@[i as int]] + sorted@.skip(i + 1));
            }
            proof {
                assert(sorted@.skip(0) =~= sorted@);
                assert(rev@.reverse() =~= sorted@);
                sorted@.lemma_reverse_to_multiset();
            }
            rev
        },
    }
}

/// "No messages", "1 message", "7 messages", or "55+ messages" when there
/// are more than 55 or more to load.
pub open spec fn message_count_spec(count: u32, has_more: bool) -> Seq<char> {
    if has_more || count > 55 {
        "55+ messages"@
    } else if count == 0 {
        "No messages"@
    } else if count == 1 {
        "1 message"@
    } else {
        text::decimal(count as nat) + " messages"@
    }
}

/// The count line of a channel in the unread list.
pub fn message_count_label(count: u32, has_more: bool) -> (r: String)
    ensures
        r@ == message_count_spec(count, has_more),
{
    if has_more || count > 55 {
        return text::owned("55+ messages");
    }
    if count == 0 {
        text::owned("No messages")
    } else if count == 1 {
        text::owned("1 message")
    } else {
        let mut s = text::decimal_string(count as u64);
        text::push_str(&mut s, " messages");
        s
    }
}

/// Is a message one the unread list shows: visible in the channel's
/// timeline, with a timestamp after the read mark (any, without a mark)?
pub open spec fn is_unread_message(cm: ChannelMessages, m: Message) -> bool {
    &&& labels::is_channel_timeline_visible_spec(m)
    &&& m.ts is Some
    &&& match cm.last_read {
        None => true,
        Some(lr) => ts::key_lt(ts::ts_key_spec(lr@), ts::ts_key_spec(m.ts->0@)),
    }
}

/// The unread messages among the first `n` of a timeline, in order.
pub open spec fn unread_prefix(cm: ChannelMessages, n: int) -> Seq<Message>
    decreases n,
{
    if n <= 0 || n > cm.messages@.len() {
        Seq::empty()
    } else {
        let prev = unread_prefix(cm, n - 1);
        let m = cm.messages@[n - 1];
        if is_unread_message(cm, m) {
            prev.push(m)
        } else {
            prev
        }
    }
}

/// The unread messages of a channel, oldest first.
pub fn unread_messages<'a>(ws: &'a Workspace, channel: &str) -> (r: Vec<&'a Message>)
    ensures
        r@.map_values(|m: &Message| *m) == match keyed::get(ws.messages@, channel@) {
            Some(cm) => unread_prefix(cm, cm.messages@.len() as int),
            None => Seq::empty(),
        },
{
    let mut out: Vec<&'a Message> = Vec::new();
    let cm = match keyed::get_ref(&ws.messages, channel) {
        Some(cm) => cm,
        None => {
            assert(out@.map_values(|m: &Message| *m) =~= Seq::<Message>::empty());
            return out;
        },
    };
    for i in 0..cm.messages.len()
        invariant
            out@.map_values(|m: &Message| *m) == unread_prefix(*cm, i as int),
    {
        let m = &cm.messages[i];
        let keep = labels::is_channel_timeline_visible(m) && match &m.ts {
            None => false,
            Some(t) => match &cm.last_read {
                None => true,
                Some(lr) => {
                    let a = ts::ts_key(lr.as_str());
                    let b = ts::ts_key(t.as_str());
                    a.0 < b.0 || (a.0 == b.0 && a.1 < b.1)
                },
            },
        };
        if keep {
            let ghost before = out@.map_values(|m: &Message| *m);
            out.push(m);
            assert(out@.map_values(|m: &Message| *m) =~= before.push(*m));
        }
    }
    out
}

// ---------------------------------------------------------------------------
// Profiles
// ---------------------------------------------------------------------------

/// Is `user` part of a conversation: the other person of a DM, or a listed
/// member of a group DM?
pub open spec fn involves_spec(c: Channel, user: Seq<char>) -> bool {
    if c.is_im {
        labels::dm_user_id_spec(c) == Some(user)
    } else {
        c.is_mpim && match crate::models::lookup(c.extra@, "members"@) {
            Some(v) => v.scalar is Array && exists|i: int|
                0 <= i < v.items@.len() && #[trigger] crate::models::scalar_str(v.items@[i].scalar) == Some(user),
            None => false,
        }
    }
}

/// Is `user` part of the conversation `channel`?
pub fn conversation_involves(channel: &Channel, user: &str) -> (r: bool)
    ensures
        r == involves_spec(*channel, user@),
{
    if channel.is_im {
        return match labels::dm_user_id(channel) {
            Some(u) => text::str_eq(u, user),
            None => false,
        };
    }
    if !channel.is_mpim {
        return false;
    }
    let v = match crate::models::get(&channel.extra, "members") {
        Some(v) => v,
        None => return false,
    };
    match &v.scalar {
        JsonScalar::Array => {},
        _ => return false,
    }
    let mut i: usize = 0;
    while i < v.items.len()
        invariant
            !channel.is_im,
            channel.is_mpim,
            crate::models::lookup(channel.extra@, "members"@) == Some(*v),
            v.scalar is Array,
            i <= v.items@.len(),
            forall|k: int| 0 <= k < i ==> crate::models::scalar_str(#[trigger] v.items@[k].scalar) != Some(user@),
        decreases v.items.len() - i,
    {
        match &v.items[i].scalar {
            JsonScalar::Str(s) => {
                if text::str_eq(s.as_str(), user) {
                    assert(crate::models::scalar_str(v.items@[i as int].scalar) == Some(user@));
                    return true;
                }
            },
            _ => {},
        }
        i = i + 1;
    }
    false
}

/// A start date worth showing: not blank, not "0", not the Unix epoch.
pub open spec fn valid_start_spec(value: Option<Seq<char>>) -> Option<Seq<char>> {
    match text::non_empty_spec(value) {
        Some(v) => if v == "0"@ || text::starts_with(v, "1970-01-01"@) {
            None
        } else {
            Some(v)
        },
        None => None,
    }
}

/// A start date worth showing, trimmed.
pub fn valid_start_date(value: Option<&str>) -> (r: Option<&str>)
    ensures
        text::str_opt(r) == valid_start_spec(text::str_opt(value)),
{
    match text::non_empty(value) {
        Some(v) => if text::str_eq(v, "0") || text::str_starts_with(v, "1970-01-01") {
            None
        } else {
            Some(v)
        },
        None => None,
    }
}

/// The UTC calendar date of a Unix time, `YYYY-MM-DD`, as chrono formats it.
pub uninterp spec fn utc_date(secs: i64) -> Option<Seq<char>>;

/// A Gregorian leap year.
pub open spec fn is_leap_year(y: int) -> bool {
    (y % 4 == 0 && y % 100 != 0) || y % 400 == 0
}

/// The days of month `m` of year `y`.
pub open spec fn month_days(y: int, m: int) -> int {
    if m == 2 {
        if is_leap_year(y) {
            29
        } else {
            28
        }
    } else if m == 4 || m == 6 || m == 9 || m == 11 {
        30
    } else {
        31
    }
}

/// The leap years from year 1 up to, not including, year `y`.
pub open spec fn leaps_before(y: int) -> int {
    (y - 1) / 4 - (y - 1) / 100 + (y - 1) / 400
}

/// Days from 1970-01-01 to the first day of year `y`.
pub open spec fn days_to_year(y: int) -> int {
    (y - 1970) * 365 + leaps_before(y) - leaps_before(1970)
}

/// Days from the first day of year `y` to the first day of month `m`.
pub open spec fn days_to_month(y: int, m: int) -> int
    decreases m,
{
    if m <= 1 {
        0
    } else {
        days_to_month(y, m - 1) + month_days(y, m - 1)
    }
}

/// Is `y-m-d` a date of the years 1970 to 9999 that falls `n` days after
/// 1970-01-01?
pub open spec fn is_date_of_day(n: int, y: int, m: int, d: int) -> bool {
    &&& 1970 <= y <= 9999
    &&& 1 <= m <= 12
    &&& 1 <= d <= month_days(y, m)
    &&& days_to_year(y) + days_to_month(y, m) + d - 1 == n
}

/// `YYYY-MM-DD` of a date with a four-digit year.
pub open spec fn ymd_text(y: int, m: int, d: int) -> Seq<char> {
    crate::dates::zero_pad(y as nat, 4) + seq!['-'] + crate::dates::zero_pad(m as nat, 2) + seq!['-']
        + crate::dates::zero_pad(d as nat, 2)
}

/// Is `t` the `YYYY-MM-DD` text of the date `n` days after 1970-01-01, in
/// the years 1970 to 9999?
pub open spec fn is_day_text(t: Option<Seq<char>>, n: int) -> bool {
    exists|y: int, m: int, d: int| is_date_of_day(n, y, m, d) && t == Some(#[trigger] ymd_text(y, m, d))
}

/// chrono's `Utc.timestamp_opt(secs, 0).single()` formatted `%Y-%m-%d`;
/// `None` when chrono has no such date. For a time from 1970 through the
/// year 9999 this is the calendar date `secs / 86400` days after 1970-01-01
/// (UTC has no offset; `%Y`, `%m`, `%d` are zero-padded to 4, 2 and 2
/// digits). Later years, which chrono writes with a sign, are left to the
/// name.
#[verifier::external_body]
fn utc_date_text(secs: i64) -> (r: Option<String>)
    ensures
        text::string_opt(r) == utc_date(secs),
        0 <= secs <= LAST_FOUR_DIGIT_YEAR_SECOND ==> is_day_text(text::string_opt(r), secs / 86400),
{
    chrono::Utc.timestamp_opt(secs, 0).single().map(|d| d.format("%Y-%m-%d").to_string())
}

/// `s.parse::<i64>()`: an optional `+` or `-` sign and decimal digits.
pub open spec fn parse_i64_spec(s: Seq<char>) -> Option<i64> {
    if s.len() > 0 && (s[0] == '-' || s[0] == '+') {
        let digits = s.skip(1);
        if digits.len() == 0 || !text::all_digits(digits) {
            None
        } else if s[0] == '-' {
            if text::digits_value(digits) <= 0x8000_0000_0000_0000 {
                Some((0 - text::digits_value(digits)) as i64)
            } else {
                None
            }
        } else if text::digits_value(digits) <= 0x7fff_ffff_ffff_ffff {
            Some(text::digits_value(digits) as i64)
        } else {
            None
        }
    } else if s.len() == 0 || !text::all_digits(s) {
        None
    } else if text::digits_value(s) <= 0x7fff_ffff_ffff_ffff {
        Some(text::digits_value(s) as i64)
    } else {
        None
    }
}

/// A profile date: a positive Unix time shown as its UTC date, another
/// number not at all, anything else as written when it is a valid start
/// date.
pub open spec fn profile_date_spec(raw: Seq<char>) -> Option<Seq<char>> {
    match parse_i64_spec(raw) {
        Some(v) => if v > 0 {
            utc_date(v)
        } else {
            None
        },
        None => valid_start_spec(Some(raw)),
    }
}

/// Parses decimal digits with an optional sign as `i64`.
#[verifier::spinoff_prover]
fn parse_i64(v: &Vec<char>) -> (r: Option<i64>)
    ensures
        r == parse_i64_spec(v@),
{
    let signed = v.len() > 0 && (v[0] == '-' || v[0] == '+');
    let negative = v.len() > 0 && v[0] == '-';
    let start: usize = if signed {
        1
    } else {
        0
    };
    let digits = &v.as_slice()[start..v.len()];
    assert(digits@ =~= v@.skip(start as int));
    assert(!signed ==> v@.skip(0) =~= v@);
    if digits.len() == 0 || digits[0] == '+' {
        assert(digits@.len() > 0 ==> !text::is_digit(digits@[0]));
        return None;
    }
    let value = match text::parse_u64(digits) {
        Some(x) => x,
        None => return None,
    };
    if negative {
        if value == 0x8000_0000_0000_0000 {
            Some(i64::MIN)
        } else if value < 0x8000_0000_0000_0000 {
            Some(-(value as i64))
        } else {
            None
        }
    } else if value <= 0x7fff_ffff_ffff_ffff {
        Some(value as i64)
    } else {
        None
    }
}

/// A profile date as shown.
pub fn format_profile_date(raw: &str) -> (r: Option<String>)
    ensures
        text::string_opt(r) == profile_date_spec(raw@),
        parse_i64_spec(raw@) matches Some(v) ==> 0 < v <= LAST_FOUR_DIGIT_YEAR_SECOND ==> is_day_text(
            text::string_opt(r),
            v / 86400,
        ),
{
    let v = text::to_chars(raw);
    match parse_i64(&v) {
        Some(value) => if value > 0 {
            utc_date_text(value)
        } else {
            None
        },
        None => match valid_start_date(Some(raw)) {
            Some(d) => Some(text::owned(d)),
            None => None,
        },
    }
}


// ---------------------------------------------------------------------------
// Profiles
// ---------------------------------------------------------------------------

/// A custom profile field as shown: its value (or, when blank, its
/// alternative text), trimmed; a user field shows the user's name and a
/// date field the date; a blank field is not shown.
pub open spec fn profile_field_spec(
    ws: Workspace,
    field_type: Option<Seq<char>>,
    value: crate::models::JsonValue,
    alt: Option<Seq<char>>,
) -> Option<Seq<char>> {
    let from_value = match value.scalar {
        JsonScalar::Str(s) => text::non_empty_spec(Some(s@)),
        _ => None,
    };
    let raw = if from_value is Some {
        from_value
    } else {
        text::non_empty_spec(alt)
    };
    match raw {
        None => None,
        Some(r) => if field_type is Some && crate::state::contains_seq(field_type->0, "user"@) {
            Some(labels::display_name_spec(keyed::get(ws.users@, r), r))
        } else if field_type is Some && crate::state::contains_seq(field_type->0, "date"@) {
            profile_date_spec(r)
        } else {
            Some(r)
        },
    }
}

fn type_mentions(field_type: Option<&str>, word: &str) -> (r: bool)
    ensures
        r == (text::str_opt(field_type) is Some && crate::state::contains_seq(text::str_opt(field_type)->0, word@)),
{
    match field_type {
        Some(t) => crate::state::chars_contain(&text::to_chars(t), &text::to_chars(word)),
        None => false,
    }
}

/// The text of a custom profile field of type `field_type`, from its value
/// and alternative text.
pub fn profile_field_text(ws: &Workspace, field_type: Option<&str>, value: &crate::models::JsonValue, alt: Option<&str>) -> (r:
    Option<String>)
    ensures
        text::string_opt(r) == profile_field_spec(*ws, text::str_opt(field_type), *value, text::str_opt(alt)),
{
    let from_value = match &value.scalar {
        JsonScalar::Str(s) => text::non_empty(Some(s.as_str())),
        _ => None,
    };
    let raw = match from_value {
        Some(v) => v,
        None => match text::non_empty(alt) {
            Some(a) => a,
            None => return None,
        },
    };
    if type_mentions(field_type, "user") {
        Some(ws.display_name(raw))
    } else if type_mentions(field_type, "date") {
        format_profile_date(raw)
    } else {
        Some(text::owned(raw))
    }
}

/// The label of a presence: "Active", "Away", or "Offline".
pub open spec fn presence_label_spec(p: crate::state::Presence) -> Seq<char> {
    match p {
        crate::state::Presence::Active => "Active"@,
        crate::state::Presence::Away => "Away"@,
        crate::state::Presence::Unknown => "Offline"@,
    }
}

/// The presence shown for a user: what was last reported, or unknown.
pub open spec fn user_presence_spec(ws: Workspace, user: Seq<char>) -> crate::state::Presence {
    match keyed::get(ws.presence@, user) {
        Some(p) => p,
        None => crate::state::Presence::Unknown,
    }
}

/// The presence line of a user's profile.
pub fn presence_label(ws: &Workspace, user: &str) -> (r: &'static str)
    ensures
        r@ == presence_label_spec(user_presence_spec(*ws, user@)),
{
    let p = match keyed::get_ref(&ws.presence, user) {
        Some(p) => *p,
        None => crate::state::Presence::Unknown,
    };
    match p {
        crate::state::Presence::Active => "Active",
        crate::state::Presence::Away => "Away",
        crate::state::Presence::Unknown => "Offline",
    }
}

/// `s` without the colons at its ends (`str::trim_matches(':')`).
pub open spec fn trim_colons(s: Seq<char>) -> Seq<char>
    decreases s.len(),
{
    if s.len() > 0 && s[0] == ':' {
        trim_colons(s.drop_first())
    } else if s.len() > 0 && s.last() == ':' {
        trim_colons(s.drop_last())
    } else {
        s
    }
}

fn trim_colons_of(s: &str) -> (r: String)
    ensures
        r@ == trim_colons(s@),
{
    let v = text::to_chars(s);
    let mut lo: usize = 0;
    let mut hi: usize = v.len();
    assert(v@.subrange(0, v@.len() as int) =~= v@);
    while lo < hi && v[lo] == ':'
        invariant
            lo <= hi <= v@.len(),
            hi == v@.len(),
            trim_colons(v@) == trim_colons(v@.subrange(lo as int, hi as int)),
        decreases hi - lo,
    {
        assert(v@.subrange(lo as int, hi as int).drop_first() =~= v@.subrange(lo + 1, hi as int));
        lo = lo + 1;
    }
    while lo < hi && v[hi - 1] == ':'
        invariant
            lo <= hi <= v@.len(),
            lo < hi ==> v@[lo as int] != ':',
            trim_colons(v@) == trim_colons(v@.subrange(lo as int, hi as int)),
        decreases hi - lo,
    {
        assert(v@.subrange(lo as int, hi as int).drop_last() =~= v@.subrange(lo as int, hi - 1));
        assert(v@.subrange(lo as int, hi as int)[0] == v@[lo as int]);
        hi = hi - 1;
    }
    let r = text::from_chars(&v.as_slice()[lo..hi]);
    proof {
        if lo < hi {
            assert(v@.subrange(lo as int, hi as int)[0] == v@[lo as int]);
        }
    }
    r
}

/// What a profile's status line shows: the status emoji's name (without
/// colons) and the status text, each when not blank; nothing when both are.
pub open spec fn status_spec(profile: Option<crate::models::UserProfile>) -> Option<(Option<Seq<char>>, Option<Seq<char>>)> {
    match profile {
        None => None,
        Some(p) => {
            let text_value = text::non_empty_spec(text::string_opt(p.status_text));
            let emoji = match text::non_empty_spec(text::string_opt(p.status_emoji)) {
                Some(e) => Some(trim_colons(e)),
                None => None,
            };
            if text_value is None && emoji is None {
                None
            } else {
                Some((emoji, text_value))
            }
        },
    }
}

/// The status emoji and status text of a profile's status line.
pub fn status_parts(profile: Option<&crate::models::UserProfile>) -> (r: Option<(Option<String>, Option<String>)>)
    ensures
        match r {
            Some((e, t)) => status_spec(match profile {
                Some(p) => Some(*p),
                None => None,
            }) == Some((text::string_opt(e), text::string_opt(t))),
            None => status_spec(match profile {
                Some(p) => Some(*p),
                None => None,
            }) is None,
        },
{
    let p = match profile {
        Some(p) => p,
        None => return None,
    };
    let text_value = match &p.status_text {
        Some(t) => text::non_empty(Some(t.as_str())),
        None => None,
    };
    let emoji = match &p.status_emoji {
        Some(e) => match text::non_empty(Some(e.as_str())) {
            Some(e) => Some(trim_colons_of(e)),
            None => None,
        },
        None => None,
    };
    if text_value.is_none() && emoji.is_none() {
        return None;
    }
    let t = match text_value {
        Some(t) => Some(text::owned(t)),
        None => None,
    };
    Some((emoji, t))
}

// ---------------------------------------------------------------------------
// Search
// ---------------------------------------------------------------------------

/// Who a search hit is by: the user's name, else the message's username
/// field, else the bot id, else "unknown".
pub open spec fn hit_author_spec(ws: Workspace, m: Message) -> Seq<char> {
    match m.user {
        Some(u) => labels::display_name_spec(keyed::get(ws.users@, u@), u@),
        None => match crate::models::lookup_str(m.extra@, "username"@) {
            Some(n) => n,
            None => match m.bot_id {
                Some(b) => b@,
                None => "unknown"@,
            },
        },
    }
}

/// Who a search hit's message is by.
pub fn author_name(ws: &Workspace, message: &Message) -> (r: String)
    ensures
        r@ == hit_author_spec(*ws, *message),
{
    match &message.user {
        Some(u) => return ws.display_name(u.as_str()),
        None => {},
    }
    match crate::models::get_str(&message.extra, "username") {
        Some(n) => return text::owned(n),
        None => {},
    }
    match &message.bot_id {
        Some(b) => b.clone(),
        None => text::owned("unknown"),
    }
}

} // verus!

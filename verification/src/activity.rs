//! The activity feed's labels: what happened, who did it, when, and the
//! first line of the message.

use vstd::prelude::*;

use crate::clock::LocalDateTime;
use crate::dates;
use crate::keyed;
use crate::labels;
use crate::state::Workspace;
use crate::text;
use crate::ts;

verus! {

broadcast use vstd::string::group_string_axioms;

/// What an activity item reports, by its kind.
pub open spec fn verb_spec(kind: Seq<char>) -> Seq<char> {
    if kind == "message_reaction"@ {
        "Reacted in"@
    } else if kind == "thread_v2"@ || kind == "thread_reply"@ {
        "Thread in"@
    } else if kind == "at_user_group"@ {
        "Group mention in"@
    } else if kind == "at_channel"@ || kind == "at_everyone"@ {
        "Channel mention in"@
    } else if kind == "at_user"@ {
        "Mention in"@
    } else if kind == "keyword"@ || kind == "unjoined_channel_mention"@ {
        "Keyword mention in"@
    } else if kind == "channel"@ {
        "Post in"@
    } else if kind == "dm"@ || kind == "bot_dm_bundle"@ {
        "DM"@
    } else {
        "Activity in"@
    }
}

/// What an activity item of kind `kind` reports.
pub fn verb(kind: &str) -> (r: &'static str)
    ensures
        r@ == verb_spec(kind@),
{
    if text::str_eq(kind, "message_reaction") {
        "Reacted in"
    } else if text::str_eq(kind, "thread_v2") || text::str_eq(kind, "thread_reply") {
        "Thread in"
    } else if text::str_eq(kind, "at_user_group") {
        "Group mention in"
    } else if text::str_eq(kind, "at_channel") || text::str_eq(kind, "at_everyone") {
        "Channel mention in"
    } else if text::str_eq(kind, "at_user") {
        "Mention in"
    } else if text::str_eq(kind, "keyword") || text::str_eq(kind, "unjoined_channel_mention") {
        "Keyword mention in"
    } else if text::str_eq(kind, "channel") {
        "Post in"
    } else if text::str_eq(kind, "dm") || text::str_eq(kind, "bot_dm_bundle") {
        "DM"
    } else {
        "Activity in"
    }
}

/// The first line of `s` with something besides white space, trimmed.
pub open spec fn first_line_spec(s: Seq<char>) -> Seq<char> {
    let ls = crate::composer::lines_spec(s);
    let i = first_non_blank(ls, 0);
    if i < ls.len() {
        text::trim_spec(ls[i as int])
    } else {
        Seq::empty()
    }
}

/// The first line from `from` on with something besides white space.
pub open spec fn first_non_blank(ls: Seq<Seq<char>>, from: nat) -> nat
    decreases ls.len() - from,
{
    if from >= ls.len() {
        ls.len()
    } else if text::trim_spec(ls[from as int]).len() > 0 {
        from
    } else {
        first_non_blank(ls, from + 1)
    }
}

proof fn lemma_first_non_blank(ls: Seq<Seq<char>>, from: nat, i: nat)
    requires
        from <= i <= ls.len(),
        forall|k: int| from <= k < i ==> text::trim_spec(#[trigger] ls[k]).len() == 0,
        i == ls.len() || text::trim_spec(ls[i as int]).len() > 0,
    ensures
        first_non_blank(ls, from) == i,
    decreases i - from,
{
    if from < i {
        lemma_first_non_blank(ls, from + 1, i);
    }
}

/// The first line of a text with something besides white space, trimmed.
pub fn first_line(s: &str) -> (r: String)
    ensures
        r@ == first_line_spec(s@),
{
    let ls = crate::composer::lines(s);
    let ghost lv = crate::composer::vviews(ls@);
    let mut i: usize = 0;
    while i < ls.len()
        invariant
            lv == crate::composer::vviews(ls@),
            lv == crate::composer::lines_spec(s@),
            i <= ls@.len(),
            forall|k: int| 0 <= k < i ==> text::trim_spec(#[trigger] lv[k]).len() == 0,
        decreases ls.len() - i,
    {
        let line = text::from_chars(ls[i].as_slice());
        let t = text::trim(line.as_str());
        assert(lv[i as int] == ls@[i as int]@);
        if !t.is_empty() {
            proof {
                lemma_first_non_blank(lv, 0, i as nat);
            }
            return text::owned(t);
        }
        i = i + 1;
    }
    proof {
        lemma_first_non_blank(lv, 0, lv.len());
    }
    let r = String::new();
    assert(r@ =~= Seq::<char>::empty());
    r
}

/// "You" for oneself, else the person's name.
pub fn author_label(ws: &Workspace, user: &str) -> (r: String)
    ensures
        r@ == if user@ == ws.self_user_id@ {
            "You"@
        } else {
            labels::display_name_spec(keyed::get(ws.users@, user@), user@)
        },
{
    if text::str_eq(user, ws.self_user_id.as_str()) {
        text::owned("You")
    } else {
        ws.display_name(user)
    }
}

/// A badge count, "99+" from 100 on.
pub fn count_label(count: u32) -> (r: String)
    ensures
        r@ == if count > 99 {
            "99+"@
        } else {
            text::decimal(count as nat)
        },
{
    if count > 99 {
        text::owned("99+")
    } else {
        text::decimal_string(count as u64)
    }
}

/// How old an activity item is: "now", "1 min", "5 mins", "1 hour",
/// "3 hours", else its local time of day. `now` is the Unix time (never
/// negative) and `local` the item time's local date and time.
pub open spec fn time_label_spec(feed_ts: Seq<char>, now: u64, local: Option<LocalDateTime>) -> Seq<char> {
    let secs = ts::ts_key_spec(feed_ts).0;
    if feed_ts.len() == 0 {
        Seq::empty()
    } else if now < secs {
        dates::hm_or_secs(feed_ts, local)
    } else {
        let e = (now - secs) as nat;
        if e < 60 {
            "now"@
        } else if e < 3600 {
            if e / 60 == 1 {
                "1 min"@
            } else {
                text::decimal(e / 60) + " mins"@
            }
        } else if e < 86400 {
            if e / 3600 == 1 {
                "1 hour"@
            } else {
                text::decimal(e / 3600) + " hours"@
            }
        } else {
            dates::hm_or_secs(feed_ts, local)
        }
    }
}

/// The age label of an activity item, given the clock's answers.
pub fn time_label_at(feed_ts: &str, now: u64, local: Option<LocalDateTime>) -> (r: String)
    ensures
        r@ == time_label_spec(feed_ts@, now, local),
{
    if feed_ts.is_empty() {
        let r = String::new();
        assert(r@ =~= Seq::<char>::empty());
        return r;
    }
    let secs = ts::ts_key(feed_ts).0;
    let hm = match local {
        Some(t) => dates::hm_text(t),
        None => text::decimal_string(secs),
    };
    if now < secs {
        return hm;
    }
    let e = now - secs;
    if e < 60 {
        text::owned("now")
    } else if e < 3600 {
        if e / 60 == 1 {
            text::owned("1 min")
        } else {
            let mut s = text::decimal_string(e / 60);
            text::push_str(&mut s, " mins");
            s
        }
    } else if e < 86400 {
        if e / 3600 == 1 {
            text::owned("1 hour")
        } else {
            let mut s = text::decimal_string(e / 3600);
            text::push_str(&mut s, " hours");
            s
        }
    } else {
        hm
    }
}

/// The current Unix time, never negative: the clock's `i64` reading, or 0
/// where that reading is negative.
pub fn now_unsigned() -> (r: u64)
    ensures
        r <= i64::MAX,
{
    let now = crate::state::now_secs();
    if now < 0 {
        0
    } else {
        now as u64
    }
}

/// The age label of an activity item, reading the clock.
pub fn time_label(feed_ts: &str) -> (r: String)
    ensures
        exists|now: u64, local: Option<LocalDateTime>| dates::local_reading(feed_ts@, local) && r@ == #[trigger] time_label_spec(feed_ts@, now, local),
{
    let now = now_unsigned();
    let secs = ts::ts_key(feed_ts).0;
    let local = crate::clock::local_date_time(#[verifier::truncate] (secs as i64));
    time_label_at(feed_ts, now, local)
}

/// The activity badge: Slack's unread activity count, 0 when unknown.
pub fn unread_count(ws: &Workspace) -> (r: usize)
    ensures
        r == match ws.activity_unread_count {
            Some(n) => n as usize,
            None => 0,
        },
{
    match ws.activity_unread_count {
        Some(n) => n as usize,
        None => 0,
    }
}

/// Does an activity item happen in a DM or group DM the workspace knows?
pub fn is_dm_channel(ws: &Workspace, channel_id: Option<&str>) -> (r: bool)
    ensures
        r == match channel_id {
            Some(id) => match keyed::get(ws.channels@, id@) {
                Some(c) => c.is_im || c.is_mpim,
                None => false,
            },
            None => false,
        },
{
    match channel_id {
        Some(id) => match keyed::get_ref(&ws.channels, id) {
            Some(c) => c.is_im || c.is_mpim,
            None => false,
        },
        None => false,
    }
}

} // verus!

//! The direct-message list: each conversation's name, preview line, unread
//! state and age.

use vstd::prelude::*;

use crate::clock::LocalDateTime;
use crate::dates;
use crate::keyed;
use crate::labels;
use crate::models::{Channel, DmEntry};
use crate::state::{Workspace, channel_display_name_spec, unread_total_spec};
use crate::text;
use crate::ts;

verus! {

broadcast use vstd::string::group_string_axioms;

/// The channel of a DM: the workspace's, else the one the list carries.
pub open spec fn channel_of_spec(ws: Workspace, entry: DmEntry) -> Option<Channel> {
    match keyed::get(ws.channels@, entry.id@) {
        Some(c) => Some(c),
        None => entry.channel,
    }
}

/// The channel of a DM list entry.
pub fn channel_of<'a>(ws: &'a Workspace, entry: &'a DmEntry) -> (r: Option<&'a Channel>)
    ensures
        match r {
            Some(c) => channel_of_spec(*ws, *entry) == Some(*c),
            None => channel_of_spec(*ws, *entry) is None,
        },
{
    match keyed::get_ref(&ws.channels, entry.id.as_str()) {
        Some(c) => Some(c),
        None => match &entry.channel {
            Some(c) => Some(c),
            None => None,
        },
    }
}

/// The name a DM is listed under, its id when its channel is unknown.
pub fn display_name(ws: &Workspace, entry: &DmEntry) -> (r: String)
    ensures
        r@ == match channel_of_spec(*ws, *entry) {
            Some(c) => channel_display_name_spec(*ws, c),
            None => entry.id@,
        },
{
    match channel_of(ws, entry) {
        Some(c) => crate::state::channel_display_name(ws, c),
        None => entry.id.clone(),
    }
}

/// The preview line of a DM: the first line of its latest message, after
/// "You: " for one's own messages and the sender's name in group DMs.
pub open spec fn preview_spec(ws: Workspace, entry: DmEntry, body: Seq<char>) -> Seq<char> {
    let line = crate::activity::first_line_spec(body);
    match entry.message {
        None => Seq::empty(),
        Some(msg) => {
            let is_mpim = match channel_of_spec(ws, entry) {
                Some(c) => c.is_mpim,
                None => false,
            };
            match msg.user {
                Some(u) => if u@ == ws.self_user_id@ {
                    "You: "@ + line
                } else if is_mpim {
                    labels::display_name_spec(keyed::get(ws.users@, u@), u@) + ": "@ + line
                } else {
                    line
                },
                None => line,
            }
        },
    }
}

/// The preview line of a DM whose latest message reads `body`.
pub fn preview_line(ws: &Workspace, entry: &DmEntry, body: &str) -> (r: String)
    ensures
        r@ == preview_spec(*ws, *entry, body@),
{
    let msg = match &entry.message {
        Some(m) => m,
        None => {
            let r = String::new();
            assert(r@ =~= Seq::<char>::empty());
            return r;
        },
    };
    let line = crate::activity::first_line(body);
    let is_mpim = match channel_of(ws, entry) {
        Some(c) => c.is_mpim,
        None => false,
    };
    match &msg.user {
        Some(u) => if text::str_eq(u.as_str(), ws.self_user_id.as_str()) {
            let mut s = text::owned("You: ");
            text::push_str(&mut s, line.as_str());
            s
        } else if is_mpim {
            let mut s = ws.display_name(u.as_str());
            text::push_str(&mut s, ": ");
            text::push_str(&mut s, line.as_str());
            s
        } else {
            line
        },
        None => line,
    }
}

/// The unread count of a DM the workspace knows, else 0.
pub fn unread_count(ws: &Workspace, entry: &DmEntry) -> (r: u32)
    ensures
        r == match keyed::get(ws.channels@, entry.id@) {
            Some(c) => unread_total_spec(ws.messages@, c),
            None => 0,
        },
{
    match keyed::get_ref(&ws.channels, entry.id.as_str()) {
        Some(c) => ws.unread_total(c),
        None => 0,
    }
}

/// When the DM was last read: the timeline's mark, else its channel's.
pub open spec fn last_read_spec(ws: Workspace, entry: DmEntry) -> Option<Seq<char>> {
    let from_timeline = match keyed::get(ws.messages@, entry.id@) {
        Some(cm) => text::string_opt(cm.last_read),
        None => None,
    };
    if from_timeline is Some {
        from_timeline
    } else {
        match channel_of_spec(ws, entry) {
            Some(c) => text::string_opt(c.last_read),
            None => None,
        }
    }
}

/// A DM is unread when it has unread messages, or when its latest message
/// is newer than where it was last read.
pub open spec fn is_unread_spec(ws: Workspace, entry: DmEntry) -> bool {
    let count = match keyed::get(ws.channels@, entry.id@) {
        Some(c) => unread_total_spec(ws.messages@, c),
        None => 0,
    };
    count > 0 || match (entry.latest, last_read_spec(ws, entry)) {
        (Some(latest), Some(lr)) => ts::key_lt(ts::ts_key_spec(lr), ts::ts_key_spec(latest@)),
        _ => false,
    }
}

/// Is a DM unread?
pub fn is_unread(ws: &Workspace, entry: &DmEntry) -> (r: bool)
    ensures
        r == is_unread_spec(*ws, *entry),
{
    if unread_count(ws, entry) > 0 {
        return true;
    }
    let from_timeline: Option<&str> = match keyed::get_ref(&ws.messages, entry.id.as_str()) {
        Some(cm) => match &cm.last_read {
            Some(l) => Some(l.as_str()),
            None => None,
        },
        None => None,
    };
    let last_read: Option<&str> = match from_timeline {
        Some(l) => Some(l),
        None => match channel_of(ws, entry) {
            Some(c) => match &c.last_read {
                Some(l) => Some(l.as_str()),
                None => None,
            },
            None => None,
        },
    };
    match (&entry.latest, last_read) {
        (Some(latest), Some(lr)) => {
            let a = ts::ts_key(lr);
            let b = ts::ts_key(latest.as_str());
            a.0 < b.0 || (a.0 == b.0 && a.1 < b.1)
        },
        _ => false,
    }
}

/// The number of DMs and group DMs, not archived, with unread messages.
pub open spec fn unread_dms(ws: Workspace, n: int) -> nat
    decreases n,
{
    if n <= 0 || n > ws.channels@.len() {
        0
    } else {
        let c = ws.channels@[n - 1].1;
        unread_dms(ws, n - 1) + if (c.is_im || c.is_mpim) && !c.is_archived && unread_total_spec(ws.messages@, c) > 0 {
            1nat
        } else {
            0nat
        }
    }
}

/// How many DMs are unread.
pub fn unread_count_total(ws: &Workspace) -> (r: usize)
    ensures
        r as nat == unread_dms(*ws, ws.channels@.len() as int),
{
    let mut n: usize = 0;
    for i in 0..ws.channels.len()
        invariant
            n as nat == unread_dms(*ws, i as int),
            n <= i,
    {
        let c = &ws.channels[i].1;
        if (c.is_im || c.is_mpim) && !c.is_archived && ws.unread_total(c) > 0 {
            n = n + 1;
        }
    }
    n
}

/// How old a DM's latest message is: "now", "1 min", "5 mins", else its
/// local time of day.
pub open spec fn time_label_spec(ts_text: Seq<char>, now: u64, local: Option<LocalDateTime>) -> Seq<char> {
    let secs = ts::ts_key_spec(ts_text).0;
    if now < secs {
        dates::hm_or_secs(ts_text, local)
    } else {
        let e = (now - secs) as nat;
        if e < 60 {
            "now"@
        } else if e < 3600 {
            if e / 60 == 1 {
                "1 min"@
            } else {
                text::decimal(e / 60) + " mins"@
            }
        } else {
            dates::hm_or_secs(ts_text, local)
        }
    }
}

/// The age label of a DM, given the clock's answers.
pub fn time_label_at(ts_text: &str, now: u64, local: Option<LocalDateTime>) -> (r: String)
    ensures
        r@ == time_label_spec(ts_text@, now, local),
{
    let secs = ts::ts_key(ts_text).0;
    let hm = match local {
        Some(t) => dates::hm_text(t),
        None => text::decimal_string(secs),
    };
    if now < secs {
        return hm;
    }
    let e = now - secs;
    if e < 60 {
        text::owned("now")
    } else if e < 3600 {
        if e / 60 == 1 {
            text::owned("1 min")
        } else {
            let mut s = text::decimal_string(e / 60);
            text::push_str(&mut s, " mins");
            s
        }
    } else {
        hm
    }
}

/// The age label of a DM, reading the clock.
pub fn time_label(ts_text: &str) -> (r: String)
    ensures
        exists|now: u64, local: Option<LocalDateTime>| dates::local_reading(ts_text@, local) && r@ == #[trigger] time_label_spec(ts_text@, now, local),
{
    let now = crate::activity::now_unsigned();
    let secs = ts::ts_key(ts_text).0;
    let local = crate::clock::local_date_time(#[verifier::truncate] (secs as i64));
    time_label_at(ts_text, now, local)
}

/// Whether a DM is unread. It is whenever its channel has an unread badge.
/// Otherwise it is unread exactly when its latest message is strictly newer
/// than its last-read mark, timestamps compared by seconds and then by
/// sequence: a DM read up to its latest message, or with either timestamp
/// missing, is read.
pub proof fn law_dm_unread(ws: Workspace, entry: DmEntry)
    ensures
        ({
            let count: int = match keyed::get(ws.channels@, entry.id@) {
                Some(c) => unread_total_spec(ws.messages@, c) as int,
                None => 0,
            };
            &&& count > 0 ==> is_unread_spec(ws, entry)
            &&& count == 0 ==> (is_unread_spec(ws, entry) <==> match (entry.latest, last_read_spec(ws, entry)) {
                (Some(latest), Some(lr)) => {
                    let a = ts::ts_key_spec(latest@);
                    let b = ts::ts_key_spec(lr);
                    a.0 > b.0 || (a.0 == b.0 && a.1 > b.1)
                },
                _ => false,
            })
        }),
        match (entry.latest, last_read_spec(ws, entry)) {
            (Some(latest), Some(lr)) => ts::ts_key_spec(latest@) == ts::ts_key_spec(lr) ==> (is_unread_spec(ws, entry)
                <==> match keyed::get(ws.channels@, entry.id@) {
                Some(c) => unread_total_spec(ws.messages@, c) > 0,
                None => false,
            }),
            _ => true,
        },
{
}

} // verus!

//! How messages are laid out: grouping of consecutive messages, typing
//! indicators, thread summaries, text selection across messages, word runs
//! and animated emoji frames.

use vstd::prelude::*;

use crate::models::Message;
use crate::text;
use crate::ts;

verus! {

broadcast use vstd::string::group_string_axioms;

// ---------------------------------------------------------------------------
// Grouping and labels
// ---------------------------------------------------------------------------

/// Does a message name an author at all?
pub open spec fn has_author(m: Message) -> bool {
    m.user is Some || m.bot_id is Some || m.username is Some
}

pub open spec fn same_author(a: Message, b: Message) -> bool {
    text::string_opt(a.user) == text::string_opt(b.user) && text::string_opt(a.bot_id) == text::string_opt(b.bot_id)
        && text::string_opt(a.username) == text::string_opt(b.username)
}

/// A message joins the previous one's group when both have the same known
/// author, both have timestamps on the same local day (`prev_day`, `cur_day`
/// are their day keys), and it came at most five minutes later.
pub open spec fn same_group_spec(prev: Message, cur: Message, prev_day: Option<Seq<char>>, cur_day: Option<Seq<char>>) -> bool {
    &&& has_author(prev)
    &&& same_author(prev, cur)
    &&& prev.ts is Some
    &&& cur.ts is Some
    &&& prev_day == cur_day
    &&& {
        let p = ts::ts_key_spec(prev.ts->0@).0;
        let c = ts::ts_key_spec(cur.ts->0@).0;
        c <= p + 300
    }
}

/// Whether `current` continues `previous`'s group, given the two messages'
/// local day keys.
pub fn same_message_group_on(previous: &Message, current: &Message, prev_day: Option<&str>, cur_day: Option<&str>) -> (r: bool)
    ensures
        r == same_group_spec(*previous, *current, text::str_opt(prev_day), text::str_opt(cur_day)),
{
    if !(previous.user.is_some() || previous.bot_id.is_some() || previous.username.is_some()) {
        return false;
    }
    if !(text::opt_eq(&previous.user, &current.user) && text::opt_eq(&previous.bot_id, &current.bot_id) && text::opt_eq(
        &previous.username,
        &current.username,
    )) {
        return false;
    }
    let (p, c) = match (&previous.ts, &current.ts) {
        (Some(p), Some(c)) => (p, c),
        _ => return false,
    };
    let same_day = match (prev_day, cur_day) {
        (Some(a), Some(b)) => text::str_eq(a, b),
        (None, None) => true,
        _ => false,
    };
    if !same_day {
        return false;
    }
    let ps = ts::ts_key(p.as_str()).0;
    let cs = ts::ts_key(c.as_str()).0;
    let gap: u64 = if cs >= ps {
        cs - ps
    } else {
        0
    };
    gap <= 300
}

/// Can `d` be the local day key of message `m`: none without a timestamp,
/// else the `YYYY-MM-DD` key of a local date the calendar can give for its
/// time (always a date for times from 1970 through the year 9999).
pub open spec fn day_key_of(m: Message, d: Option<Seq<char>>) -> bool {
    match m.ts {
        None => d is None,
        Some(t) => exists|lt: Option<crate::clock::LocalDateTime>|
            crate::dates::local_reading(t@, lt) && d == #[trigger] crate::dates::date_key_opt(lt),
    }
}

/// Whether `current` continues `previous`'s group, reading both messages'
/// local days from the clock. Which day a time falls on depends on the
/// machine's time zone, so the rule is stated over day keys the calendar
/// can give for the two times.
pub fn same_message_group(previous: &Message, current: &Message) -> (r: bool)
    ensures
        exists|a: Option<Seq<char>>, b: Option<Seq<char>>|
            (previous.ts is Some && current.ts is Some ==> day_key_of(*previous, a) && day_key_of(*current, b))
                && r == #[trigger] same_group_spec(*previous, *current, a, b),
{
    let both = match (&previous.ts, &current.ts) {
        (Some(p), Some(c)) => Some((p, c)),
        _ => None,
    };
    match both {
        Some((p, c)) => {
            let a = crate::dates::date_key_for_ts(p.as_str());
            let b = crate::dates::date_key_for_ts(c.as_str());
            let a_ref = match &a {
                Some(s) => Some(s.as_str()),
                None => None,
            };
            let b_ref = match &b {
                Some(s) => Some(s.as_str()),
                None => None,
            };
            let r = same_message_group_on(previous, current, a_ref, b_ref);
            assert(day_key_of(*previous, text::str_opt(a_ref)));
            assert(day_key_of(*current, text::str_opt(b_ref)));
            assert(r == same_group_spec(*previous, *current, text::str_opt(a_ref), text::str_opt(b_ref)));
            r
        },
        None => {
            let r = same_message_group_on(previous, current, None, None);
            assert(r == same_group_spec(*previous, *current, None, None));
            r
        },
    }
}

/// "alice is typing…", "alice and bob are typing…", "3 people are typing…".
pub open spec fn typing_line_spec(names: Seq<Seq<char>>) -> Seq<char> {
    if names.len() == 0 {
        Seq::empty()
    } else if names.len() == 1 {
        names[0] + " is typing…"@
    } else if names.len() == 2 {
        names[0] + " and "@ + names[1] + " are typing…"@
    } else {
        text::decimal(names.len()) + " people are typing…"@
    }
}

/// The typing indicator line for the names of the people typing.
pub fn typing_line(names: &[String]) -> (r: String)
    ensures
        r@ == typing_line_spec(crate::models::strings_view(names@)),
{
    let ghost nv = crate::models::strings_view(names@);
    if names.len() == 0 {
        let s = String::new();
        assert(s@ =~= Seq::<char>::empty());
        s
    } else if names.len() == 1 {
        let mut s = names[0].clone();
        text::push_str(&mut s, " is typing…");
        s
    } else if names.len() == 2 {
        let mut s = names[0].clone();
        text::push_str(&mut s, " and ");
        text::push_str(&mut s, names[1].as_str());
        text::push_str(&mut s, " are typing…");
        s
    } else {
        let mut s = text::decimal_string(names.len() as u64);
        text::push_str(&mut s, " people are typing…");
        s
    }
}

/// A message an app posted.
pub fn is_app_message(msg: &Message) -> (r: bool)
    ensures
        r == (text::string_opt(msg.subtype) == Some("bot_message"@)),
{
    text::opt_eq_str(&msg.subtype, "bot_message")
}

/// The thread a message opens: its root for a reply, else the message.
pub fn thread_target_ts(msg: &Message) -> (r: Option<String>)
    ensures
        r == match (msg.thread_ts, msg.ts) {
            (Some(root), Some(t)) => if root@ != t@ {
                Some(root)
            } else {
                Some(t)
            },
            (_, Some(t)) => Some(t),
            _ => None,
        },
{
    match (&msg.thread_ts, &msg.ts) {
        (Some(root), Some(t)) => if !text::str_eq(root.as_str(), t.as_str()) {
            Some(root.clone())
        } else {
            Some(t.clone())
        },
        (_, Some(t)) => Some(t.clone()),
        _ => None,
    }
}

// ---------------------------------------------------------------------------
// A channel's timeline
// ---------------------------------------------------------------------------

/// How many of the latest messages a channel's timeline shows.
pub const VISIBLE_MESSAGE_LIMIT: usize = 200;

/// One row of a channel's timeline.
#[derive(Debug, Clone, Copy, PartialEq, Eq, Structural)]
pub struct RowPlan {
    /// The message's position in the channel's message list.
    pub index: usize,
    /// A date separator stands above the row.
    pub separator: bool,
    /// The row continues the previous row's group and shows no header.
    pub compact: bool,
    /// The row is the one being edited.
    pub editing: bool,
}

/// Positions, in order, of the messages before `n` that the channel
/// timeline shows.
pub open spec fn visible_upto(msgs: Seq<Message>, n: nat) -> Seq<usize>
    decreases n,
{
    if n == 0 {
        Seq::empty()
    } else {
        let p = visible_upto(msgs, (n - 1) as nat);
        if crate::labels::is_channel_timeline_visible_spec(msgs[n - 1]) {
            p.push((n - 1) as usize)
        } else {
            p
        }
    }
}

/// Positions of the shown messages: the latest `VISIBLE_MESSAGE_LIMIT`
/// timeline messages, oldest first.
pub open spec fn visible_rows(msgs: Seq<Message>) -> Seq<usize> {
    let all = visible_upto(msgs, msgs.len());
    if all.len() > VISIBLE_MESSAGE_LIMIT {
        all.skip(all.len() - VISIBLE_MESSAGE_LIMIT)
    } else {
        all
    }
}

/// The last separator's day and the previous row's position after the
/// first `j` rows.
pub open spec fn plan_state(msgs: Seq<Message>, days: Seq<Option<String>>, vis: Seq<usize>, j: nat) -> (
    Option<Seq<char>>,
    Option<usize>,
)
    decreases j,
{
    if j == 0 || j > vis.len() {
        (None, None)
    } else {
        let (ld, prev) = plan_state(msgs, days, vis, (j - 1) as nat);
        let k = vis[j - 1];
        let day = text::string_opt(days[k as int]);
        let sep = msgs[k as int].ts is Some && day is Some && day != ld;
        (if sep {
            day
        } else {
            ld
        }, Some(k))
    }
}

/// Row `j` of the plan: a separator where a message's day (its local day
/// key in `days`) differs from the last separator's; compact when it is
/// not being edited and joins the previous row's group with no separator
/// between them.
pub open spec fn row_spec(
    msgs: Seq<Message>,
    days: Seq<Option<String>>,
    editing: Option<Seq<char>>,
    vis: Seq<usize>,
    j: int,
) -> RowPlan {
    let (ld, prev) = plan_state(msgs, days, vis, j as nat);
    let k = vis[j];
    let m = msgs[k as int];
    let day = text::string_opt(days[k as int]);
    let sep = m.ts is Some && day is Some && day != ld;
    let ed = m.ts is Some && editing == Some(m.ts->0@);
    let compact = !ed && !sep && match prev {
        Some(p) => same_group_spec(msgs[p as int], m, text::string_opt(days[p as int]), day),
        None => false,
    };
    RowPlan { index: k, separator: sep, compact, editing: ed }
}

/// The rows of a channel's timeline.
pub open spec fn plan_spec(msgs: Seq<Message>, days: Seq<Option<String>>, editing: Option<Seq<char>>) -> Seq<RowPlan> {
    Seq::new(visible_rows(msgs).len(), |j: int| row_spec(msgs, days, editing, visible_rows(msgs), j))
}

proof fn lemma_visible_upto_bound(msgs: Seq<Message>, n: nat)
    ensures
        forall|q: int| 0 <= q < visible_upto(msgs, n).len() ==> (#[trigger] visible_upto(msgs, n)[q]) < n,
    decreases n,
{
    if n > 0 {
        lemma_visible_upto_bound(msgs, (n - 1) as nat);
        let p = visible_upto(msgs, (n - 1) as nat);
        assert forall|q: int| 0 <= q < visible_upto(msgs, n).len() implies (#[trigger] visible_upto(msgs, n)[q]) < n by {
            if q < p.len() {
                assert(visible_upto(msgs, n)[q] == p[q]);
            }
        }
    }
}

fn str_opt_eq(a: Option<&str>, b: Option<&str>) -> (r: bool)
    ensures
        r == (text::str_opt(a) == text::str_opt(b)),
{
    match (a, b) {
        (Some(x), Some(y)) => text::str_eq(x, y),
        (None, None) => true,
        _ => false,
    }
}

fn as_str_opt(s: &Option<String>) -> (r: Option<&str>)
    ensures
        text::str_opt(r) == text::string_opt(*s),
{
    match s {
        Some(t) => Some(t.as_str()),
        None => None,
    }
}

/// The rows of a channel's timeline, given each message's local day key
/// (`days[i]` for `msgs[i]`) and the timestamp of the message being edited.
pub fn timeline_plan(msgs: &[Message], days: &[Option<String>], editing_ts: Option<&str>) -> (r: Vec<RowPlan>)
    requires
        days@.len() == msgs@.len(),
    ensures
        r@ == plan_spec(msgs@, days@, text::str_opt(editing_ts)),
{
    let ghost ms = msgs@;
    let mut all: Vec<usize> = Vec::new();
    for i in 0..msgs.len()
        invariant
            ms == msgs@,
            all@ == visible_upto(ms, i as nat),
    {
        if crate::labels::is_channel_timeline_visible(&msgs[i]) {
            all.push(i);
        }
    }
    proof {
        lemma_visible_upto_bound(ms, ms.len());
    }
    let start: usize = if all.len() > VISIBLE_MESSAGE_LIMIT {
        all.len() - VISIBLE_MESSAGE_LIMIT
    } else {
        0
    };
    let mut vis: Vec<usize> = Vec::new();
    for i in start..all.len()
        invariant
            start <= all@.len(),
            vis@ == all@.subrange(start as int, i as int),
    {
        vis.push(all[i]);
        assert(vis@ =~= all@.subrange(start as int, i + 1));
    }
    assert(vis@ =~= visible_rows(ms));
    let ghost ed = text::str_opt(editing_ts);
    let mut out: Vec<RowPlan> = Vec::new();
    let mut last_date: Option<&str> = None;
    let mut prev: Option<usize> = None;
    for j in 0..vis.len()
        invariant
            ms == msgs@,
            ed == text::str_opt(editing_ts),
            days@.len() == ms.len(),
            vis@ == visible_rows(ms),
            forall|q: int| 0 <= q < vis@.len() ==> (#[trigger] vis@[q]) < ms.len(),
            out@.len() == j,
            forall|q: int| 0 <= q < j ==> (#[trigger] out@[q]) == row_spec(ms, days@, ed, vis@, q),
            (text::str_opt(last_date), prev) == plan_state(ms, days@, vis@, j as nat),
    {
        let k = vis[j];
        let m = &msgs[k];
        let day = as_str_opt(&days[k]);
        let sep = m.ts.is_some() && day.is_some() && !str_opt_eq(day, last_date);
        let editing = match (&m.ts, editing_ts) {
            (Some(t), Some(e)) => text::str_eq(t.as_str(), e),
            _ => false,
        };
        let compact = if editing || sep {
            false
        } else {
            match prev {
                Some(p) => same_message_group_on(&msgs[p], m, as_str_opt(&days[p]), day),
                None => false,
            }
        };
        let row = RowPlan { index: k, separator: sep, compact, editing };
        proof {
            let (ld, pv) = plan_state(ms, days@, vis@, j as nat);
            assert(ld == text::str_opt(last_date) && pv == prev);
            let sday = text::string_opt(days@[k as int]);
            assert(text::str_opt(day) == sday);
            assert(sep == (ms[k as int].ts is Some && sday is Some && sday != ld));
            assert(*m == ms[k as int]);
            assert(editing == (ms[k as int].ts is Some && ed == Some(ms[k as int].ts->0@)));
        }
        assert(row == row_spec(ms, days@, ed, vis@, j as int));
        out.push(row);
        if sep {
            last_date = day;
        }
        prev = Some(k);
        assert(out@[j as int] == row);
    }
    assert(out@ =~= plan_spec(ms, days@, ed));
    out
}

/// The rows of a channel's timeline, reading each message's local day from
/// the clock. Which day a time falls on depends on the machine's time zone,
/// so the plan is stated over some day keys, one per message.
pub fn channel_timeline_plan(msgs: &[Message], editing_ts: Option<&str>) -> (r: Vec<RowPlan>)
    ensures
        exists|days: Seq<Option<String>>|
            days.len() == msgs@.len() && (forall|i: int| 0 <= i < days.len() ==> day_key_of(msgs@[i], text::string_opt(#[trigger] days[i])))
                && r@ == #[trigger] plan_spec(msgs@, days, text::str_opt(editing_ts)),
{
    let mut days: Vec<Option<String>> = Vec::new();
    for i in 0..msgs.len()
        invariant
            days@.len() == i,
            forall|k: int| 0 <= k < i ==> day_key_of(msgs@[k], text::string_opt(#[trigger] days@[k])),
    {
        let d = match &msgs[i].ts {
            Some(t) => crate::dates::date_key_for_ts(t.as_str()),
            None => None,
        };
        assert(day_key_of(msgs@[i as int], text::string_opt(d)));
        days.push(d);
        assert(days@[i as int] == d);
    }
    let r = timeline_plan(msgs, days.as_slice(), editing_ts);
    assert(days@.len() == msgs@.len() && (forall|i: int| 0 <= i < days@.len() ==> day_key_of(msgs@[i], text::string_opt(#[trigger] days@[i]))));
    r
}

// ---------------------------------------------------------------------------
// A message row's controls
// ---------------------------------------------------------------------------

/// An action of the bar shown over a hovered message.
#[derive(Debug, Clone, Copy, PartialEq, Eq, Structural)]
pub enum RowAction {
    Reply,
    Copy,
    Edit,
    Delete,
}

/// Whose profile the name and avatar of a row open: the author, unless an
/// app or bot posted the message.
pub fn profile_user(msg: &Message) -> (r: Option<&str>)
    ensures
        text::str_opt(r) == (if msg.bot_profile is None && msg.bot_id is None {
            text::string_opt(msg.user)
        } else {
            None
        }),
{
    if msg.bot_profile.is_none() && msg.bot_id.is_none() {
        match &msg.user {
            Some(u) => Some(u.as_str()),
            None => None,
        }
    } else {
        None
    }
}

/// May the signed-in user edit and delete the message: a sent message of
/// their own, not posted by a bot.
pub open spec fn can_edit_spec(self_id: Seq<char>, msg: Message, pending: bool) -> bool {
    &&& !pending
    &&& msg.bot_id is None
    &&& msg.ts is Some
    &&& text::string_opt(msg.user) == Some(self_id)
}

/// May the signed-in user edit and delete the message?
pub fn can_edit(ws: &crate::state::Workspace, msg: &Message, pending: bool) -> (r: bool)
    ensures
        r == can_edit_spec(ws.self_user_id@, *msg, pending),
{
    !pending && msg.bot_id.is_none() && msg.ts.is_some() && text::opt_eq_str(&msg.user, ws.self_user_id.as_str())
}

/// The actions over a row, in order: Reply when the message opens a thread
/// outside a thread pane, Copy when it has text to copy, Edit and Delete
/// when it may be edited. None while the row is not hovered or is being
/// edited.
pub open spec fn row_actions_spec(
    self_id: Seq<char>,
    msg: Message,
    pending: bool,
    in_thread: bool,
    hovered: bool,
    editing: bool,
    can_copy: bool,
) -> Seq<RowAction> {
    if !hovered || editing {
        Seq::empty()
    } else {
        let reply: Seq<RowAction> = if !in_thread && msg.ts is Some {
            seq![RowAction::Reply]
        } else {
            Seq::empty()
        };
        let copy: Seq<RowAction> = if can_copy {
            seq![RowAction::Copy]
        } else {
            Seq::empty()
        };
        let edit: Seq<RowAction> = if can_edit_spec(self_id, msg, pending) {
            seq![RowAction::Edit, RowAction::Delete]
        } else {
            Seq::empty()
        };
        reply + copy + edit
    }
}

/// The actions of the bar over a row; empty when no bar is shown.
pub fn row_actions(
    ws: &crate::state::Workspace,
    msg: &Message,
    pending: bool,
    in_thread: bool,
    hovered: bool,
    editing: bool,
    can_copy: bool,
) -> (r: Vec<RowAction>)
    ensures
        r@ == row_actions_spec(ws.self_user_id@, *msg, pending, in_thread, hovered, editing, can_copy),
{
    let mut r: Vec<RowAction> = Vec::new();
    if !hovered || editing {
        assert(r@ =~= row_actions_spec(ws.self_user_id@, *msg, pending, in_thread, hovered, editing, can_copy));
        return r;
    }
    if !in_thread && thread_target_ts(msg).is_some() {
        r.push(RowAction::Reply);
    }
    if can_copy {
        r.push(RowAction::Copy);
    }
    if can_edit(ws, msg, pending) {
        r.push(RowAction::Edit);
        r.push(RowAction::Delete);
    }
    assert(r@ =~= row_actions_spec(ws.self_user_id@, *msg, pending, in_thread, hovered, editing, can_copy));
    r
}

/// The reply count a row shows under a thread root, outside a thread pane:
/// present only for a message with a timestamp and at least one reply.
pub fn thread_summary_count(msg: &Message, in_thread: bool) -> (r: Option<u32>)
    ensures
        r == (if !in_thread && msg.ts is Some && msg.reply_count is Some && msg.reply_count->0 > 0 {
            msg.reply_count
        } else {
            None
        }),
{
    if in_thread || thread_target_ts(msg).is_none() {
        return None;
    }
    match msg.reply_count {
        Some(n) => if n > 0 {
            Some(n)
        } else {
            None
        },
        None => None,
    }
}

/// The first five distinct repliers of a thread, in order.
pub open spec fn participants_spec(users: Seq<Seq<char>>) -> Seq<Seq<char>>
    decreases users.len(),
{
    if users.len() == 0 {
        Seq::empty()
    } else {
        let prev = participants_spec(users.drop_last());
        if prev.len() >= 5 || prev.contains(users.last()) {
            prev
        } else {
            prev.push(users.last())
        }
    }
}

proof fn lemma_participants_len(users: Seq<Seq<char>>)
    ensures
        participants_spec(users).len() <= 5,
    decreases users.len(),
{
    if users.len() > 0 {
        lemma_participants_len(users.drop_last());
    }
}

/// The first five distinct repliers of a message's thread.
pub fn thread_participants(msg: &Message) -> (r: Vec<&str>)
    ensures
        crate::sections::strs(r@) == participants_spec(crate::models::strings_view(msg.reply_users@)),
{
    let ghost uv = crate::models::strings_view(msg.reply_users@);
    let mut users: Vec<&str> = Vec::new();
    for i in 0..msg.reply_users.len()
        invariant
            uv == crate::models::strings_view(msg.reply_users@),
            crate::sections::strs(users@) == participants_spec(uv.take(i as int)),
    {
        assert(uv.take(i + 1).drop_last() =~= uv.take(i as int));
        let ghost prev = participants_spec(uv.take(i as int));
        proof {
            lemma_participants_len(uv.take(i as int));
        }
        if users.len() < 5 {
            let u = msg.reply_users[i].as_str();
            let mut k: usize = 0;
            let mut found = false;
            while k < users.len()
                invariant
                    k <= users@.len(),
                    prev == crate::sections::strs(users@),
                    found == (exists|j: int| 0 <= j < k && (#[trigger] users@[j])@ == u@),
                decreases users.len() - k,
            {
                if text::str_eq(users[k], u) {
                    found = true;
                }
                k = k + 1;
            }
            assert(found == prev.contains(u@)) by {
                if found {
                    let j = choose|j: int| 0 <= j < users@.len() && (#[trigger] users@[j])@ == u@;
                    assert(prev[j] == u@);
                }
                if prev.contains(u@) {
                    let j = choose|j: int| 0 <= j < prev.len() && prev[j] == u@;
                    assert(users@[j]@ == u@);
                }
            }
            if !found {
                users.push(u);
                assert(crate::sections::strs(users@) =~= prev.push(u@));
            }
        }
    }
    assert(uv.take(msg.reply_users.len() as int) =~= uv);
    users
}

/// "1 reply", "3 replies".
pub fn reply_count_label(count: u32) -> (r: String)
    ensures
        r@ == text::decimal(count as nat) + if count == 1 {
            " reply"@
        } else {
            " replies"@
        },
{
    let mut s = text::decimal_string(count as u64);
    if count == 1 {
        text::push_str(&mut s, " reply");
    } else {
        text::push_str(&mut s, " replies");
    }
    s
}

// ---------------------------------------------------------------------------
// Word runs
// ---------------------------------------------------------------------------

/// Runs of text, each ending after a white-space character; the last run
/// holds what follows the last white space.
pub open spec fn runs_spec(s: Seq<char>) -> Seq<Seq<char>>
    decreases s.len(),
{
    let (done, rest) = runs_split(s);
    if rest.len() > 0 {
        done.push(rest)
    } else {
        done
    }
}

/// The finished runs and the run in progress after reading `s`.
pub open spec fn runs_split(s: Seq<char>) -> (Seq<Seq<char>>, Seq<char>)
    decreases s.len(),
{
    if s.len() == 0 {
        (Seq::empty(), Seq::empty())
    } else {
        let (done, run) = runs_split(s.drop_last());
        let run2 = run.push(s.last());
        if text::is_ws(s.last()) {
            (done.push(run2), Seq::empty())
        } else {
            (done, run2)
        }
    }
}

/// Splits text into runs that each end after a white-space character.
pub fn text_runs(value: &str) -> (r: Vec<String>)
    ensures
        crate::models::strings_view(r@) == runs_spec(value@),
{
    let v = text::to_chars(value);
    let mut out: Vec<String> = Vec::new();
    let mut run = String::new();
    for i in 0..v.len()
        invariant
            v@ == value@,
            crate::models::strings_view(out@) == runs_split(value@.take(i as int)).0,
            run@ == runs_split(value@.take(i as int)).1,
    {
        assert(value@.take(i + 1).drop_last() =~= value@.take(i as int));
        text::push_char(&mut run, v[i]);
        if text::is_whitespace(v[i]) {
            let ghost before = crate::models::strings_view(out@);
            let finished = run;
            run = String::new();
            let ghost fv = finished@;
            out.push(finished);
            assert(crate::models::strings_view(out@) =~= before.push(fv));
            assert(run@ =~= Seq::<char>::empty());
        }
    }
    assert(value@.take(v.len() as int) =~= value@);
    if run.as_str().unicode_len() > 0 {
        let ghost before = crate::models::strings_view(out@);
        let ghost rv = run@;
        out.push(run);
        assert(crate::models::strings_view(out@) =~= before.push(rv));
    }
    out
}

// ---------------------------------------------------------------------------
// Animated emoji
// ---------------------------------------------------------------------------

/// Whole milliseconds of a duration given in nanoseconds.
pub open spec fn ms(ns: u128) -> nat {
    (ns / 1_000_000) as nat
}

/// How long a frame shows, in milliseconds: its delay, at least 1.
pub open spec fn frame_ms(ns: u128) -> nat {
    if ms(ns) == 0 {
        1
    } else {
        ms(ns)
    }
}

/// When the first `k` frames are over, in milliseconds.
pub open spec fn frames_end(delays: Seq<u128>, k: int) -> nat
    decreases k,
{
    if k <= 0 || delays.len() == 0 {
        0
    } else if k > delays.len() {
        frames_end(delays, delays.len() as int)
    } else {
        frames_end(delays, k - 1) + frame_ms(delays[k - 1])
    }
}

/// The first frame still showing at `t` ms, or the number of delays.
pub open spec fn frame_at(delays: Seq<u128>, t: nat, from: nat) -> nat
    decreases delays.len() - from,
{
    if from >= delays.len() {
        delays.len()
    } else if t < frames_end(delays, (from + 1) as int) {
        from
    } else {
        frame_at(delays, t, from + 1)
    }
}

/// The frame an animation shows `elapsed` into its loop of length `total`
/// (all in nanoseconds); `None` without frames or with an empty loop, or
/// when the delays point past the frames.
pub open spec fn frame_index_spec(frame_count: nat, delays: Seq<u128>, total: u128, elapsed: u128) -> Option<nat> {
    if frame_count == 0 || total == 0 {
        None
    } else {
        let loop_ms = if ms(total) == 0 {
            1
        } else {
            ms(total)
        };
        let t = ms(elapsed) % loop_ms;
        let i = frame_at(delays, t, 0);
        if i < delays.len() {
            if i < frame_count {
                Some(i)
            } else {
                None
            }
        } else {
            Some((frame_count - 1) as nat)
        }
    }
}

proof fn lemma_frames_end_mono(delays: Seq<u128>, a: int, b: int)
    requires
        0 <= a <= b <= delays.len(),
    ensures
        frames_end(delays, a) <= frames_end(delays, b),
    decreases b - a,
{
    if a < b {
        lemma_frames_end_mono(delays, a, b - 1);
    }
}

proof fn lemma_frame_at(delays: Seq<u128>, t: nat, from: nat, i: nat)
    requires
        from <= i <= delays.len(),
        forall|k: int| from <= k < i ==> t >= #[trigger] frames_end(delays, k + 1),
        i == delays.len() || t < frames_end(delays, (i + 1) as int),
    ensures
        frame_at(delays, t, from) == i,
    decreases i - from,
{
    if from < i {
        lemma_frame_at(delays, t, from + 1, i);
    }
}

/// The frame of an animation to show; all times in nanoseconds. The
/// frames' delays must add up to at most `u128::MAX` milliseconds.
pub fn animated_frame_index(frame_count: usize, delays: &[u128], total: u128, elapsed: u128) -> (r: Option<usize>)
    requires
        frames_end(delays@, delays@.len() as int) <= u128::MAX,
    ensures
        match r {
            Some(i) => frame_index_spec(frame_count as nat, delays@, total, elapsed) == Some(i as nat),
            None => frame_index_spec(frame_count as nat, delays@, total, elapsed) is None,
        },
{
    if frame_count == 0 || total == 0 {
        return None;
    }
    let total_ms = total / 1_000_000;
    let loop_ms = if total_ms == 0 {
        1
    } else {
        total_ms
    };
    let t = (elapsed / 1_000_000) % loop_ms;
    let mut cursor: u128 = 0;
    let mut i: usize = 0;
    while i < delays.len()
        invariant
            frame_count > 0,
            total > 0,
            total_ms == total / 1_000_000,
            loop_ms == (if total_ms == 0 { 1 } else { total_ms }),
            t == (elapsed / 1_000_000) % loop_ms,
            i <= delays@.len(),
            cursor == frames_end(delays@, i as int),
            frames_end(delays@, delays@.len() as int) <= u128::MAX,
            forall|k: int| 0 <= k < i ==> t >= #[trigger] frames_end(delays@, k + 1),
        decreases delays.len() - i,
    {
        let d = delays[i] / 1_000_000;
        let step: u128 = if d == 0 {
            1
        } else {
            d
        };
        proof {
            lemma_frames_end_mono(delays@, i + 1, delays@.len() as int);
        }
        cursor = cursor + step;
        assert(cursor == frames_end(delays@, i + 1));
        if t < cursor {
            proof {
                lemma_frame_at(delays@, t as nat, 0, i as nat);
            }
            if i < frame_count {
                return Some(i);
            } else {
                return None;
            }
        }
        i = i + 1;
    }
    proof {
        lemma_frame_at(delays@, t as nat, 0, delays@.len() as nat);
    }
    Some(frame_count - 1)
}

// ---------------------------------------------------------------------------
// Text selection across messages
// ---------------------------------------------------------------------------

/// Where a text selection lives.
#[derive(Debug, Clone, PartialEq, Eq)]
pub enum TextSelectionSurface {
    Channel { channel: String },
    Thread { channel: String, root_ts: String },
}

/// One end of a text selection: a character offset in a message.
#[derive(Debug, Clone)]
pub struct TextSelectionEnd {
    pub surface: TextSelectionSurface,
    pub message_ts: String,
    pub message_index: usize,
    pub offset: usize,
}

/// A text selection from where it started to where it now ends.
#[derive(Debug, Clone)]
pub struct TextSelection {
    pub anchor: TextSelectionEnd,
    pub focus: TextSelectionEnd,
}

pub open spec fn surface_view(s: TextSelectionSurface) -> (Seq<char>, Option<Seq<char>>) {
    match s {
        TextSelectionSurface::Channel { channel } => (channel@, None),
        TextSelectionSurface::Thread { channel, root_ts } => (channel@, Some(root_ts@)),
    }
}

pub open spec fn min_nat(a: nat, b: nat) -> nat {
    if a <= b {
        a
    } else {
        b
    }
}

pub open spec fn max_nat(a: nat, b: nat) -> nat {
    if a >= b {
        a
    } else {
        b
    }
}

/// The characters of the message at `index` (with timestamp `ts` and `len`
/// characters) that a selection covers, as an inclusive range; `None` when
/// it covers none of them.
pub open spec fn selection_range_spec(
    sel: Option<TextSelection>,
    surface: TextSelectionSurface,
    ts: Seq<char>,
    index: nat,
    len: nat,
) -> Option<(nat, nat)> {
    match sel {
        None => None,
        Some(s) => {
            let a = s.anchor;
            let f = s.focus;
            let lo = min_nat(a.message_index as nat, f.message_index as nat);
            let hi = max_nat(a.message_index as nat, f.message_index as nat);
            if len == 0 || surface_view(a.surface) != surface_view(surface) || surface_view(f.surface) != surface_view(
                surface,
            ) || index < lo || index > hi {
                None
            } else {
                let ao = min_nat(a.offset as nat, (len - 1) as nat);
                let fo = min_nat(f.offset as nat, (len - 1) as nat);
                let forward = a.message_index < f.message_index || (a.message_index == f.message_index
                    && a.offset <= f.offset);
                if a.message_index == f.message_index {
                    Some((min_nat(ao, fo), max_nat(ao, fo)))
                } else if index != a.message_index && index != f.message_index {
                    Some((0, (len - 1) as nat))
                } else if forward {
                    if index == a.message_index {
                        Some((ao, (len - 1) as nat))
                    } else {
                        Some((0, fo))
                    }
                } else if index == f.message_index {
                    Some((fo, (len - 1) as nat))
                } else {
                    Some((0, ao))
                }
            }
        },
    }
}

fn same_surface(a: &TextSelectionSurface, b: &TextSelectionSurface) -> (r: bool)
    ensures
        r == (surface_view(*a) == surface_view(*b)),
{
    match (a, b) {
        (TextSelectionSurface::Channel { channel: x }, TextSelectionSurface::Channel { channel: y }) => text::str_eq(
            x.as_str(),
            y.as_str(),
        ),
        (
            TextSelectionSurface::Thread { channel: x, root_ts: rx },
            TextSelectionSurface::Thread { channel: y, root_ts: ry },
        ) => text::str_eq(x.as_str(), y.as_str()) && text::str_eq(rx.as_str(), ry.as_str()),
        _ => false,
    }
}

/// The characters of a message a selection covers, as an inclusive range.
pub fn selection_range_for_message(
    selection: Option<&TextSelection>,
    surface: &TextSelectionSurface,
    ts: &str,
    index: usize,
    len: usize,
) -> (r: Option<(usize, usize)>)
    ensures
        match r {
            Some((x, y)) => selection_range_spec(
                match selection {
                    Some(s) => Some(*s),
                    None => None,
                },
                *surface,
                ts@,
                index as nat,
                len as nat,
            ) == Some((x as nat, y as nat)),
            None => selection_range_spec(
                match selection {
                    Some(s) => Some(*s),
                    None => None,
                },
                *surface,
                ts@,
                index as nat,
                len as nat,
            ) is None,
        },
{
    let selection = match selection {
        Some(s) => s,
        None => return None,
    };
    let anchor = &selection.anchor;
    let focus = &selection.focus;
    let start_index = if anchor.message_index <= focus.message_index {
        anchor.message_index
    } else {
        focus.message_index
    };
    let end_index = if anchor.message_index >= focus.message_index {
        anchor.message_index
    } else {
        focus.message_index
    };
    let outside = index < start_index || index > end_index;
    let other_message = !text::str_eq(anchor.message_ts.as_str(), ts) && !text::str_eq(focus.message_ts.as_str(), ts);
    if len == 0 || !same_surface(&anchor.surface, surface) || !same_surface(&focus.surface, surface) || (other_message
        && outside) {
        return None;
    }
    if outside {
        return None;
    }
    let last = len - 1;
    let anchor_offset = if anchor.offset <= last {
        anchor.offset
    } else {
        last
    };
    let focus_offset = if focus.offset <= last {
        focus.offset
    } else {
        last
    };
    let forward = anchor.message_index < focus.message_index || (anchor.message_index == focus.message_index
        && anchor.offset <= focus.offset);
    if anchor.message_index == focus.message_index {
        let lo = if anchor_offset <= focus_offset {
            anchor_offset
        } else {
            focus_offset
        };
        let hi = if anchor_offset >= focus_offset {
            anchor_offset
        } else {
            focus_offset
        };
        return Some((lo, hi));
    }
    if index != anchor.message_index && index != focus.message_index {
        return Some((0, last));
    }
    if forward {
        if index == anchor.message_index {
            Some((anchor_offset, last))
        } else {
            Some((0, focus_offset))
        }
    } else if index == focus.message_index {
        Some((focus_offset, last))
    } else {
        Some((0, anchor_offset))
    }
}


/// A selection range lies inside the message, start before end.
pub proof fn law_selection_range_in_bounds(
    sel: Option<TextSelection>,
    surface: TextSelectionSurface,
    ts: Seq<char>,
    index: nat,
    len: nat,
)
    ensures
        selection_range_spec(sel, surface, ts, index, len) matches Some(r) ==> r.0 <= r.1 < len,
{
}

/// The frame shown is one of the animation's frames.
pub proof fn law_frame_in_range(frame_count: nat, delays: Seq<u128>, total: u128, elapsed: u128)
    ensures
        frame_index_spec(frame_count, delays, total, elapsed) matches Some(i) ==> i < frame_count,
{
}

/// A thread summary shows at most five repliers, each once.
pub proof fn law_participants_distinct(users: Seq<Seq<char>>)
    ensures
        participants_spec(users).len() <= 5,
        participants_spec(users).no_duplicates(),
        forall|i: int| 0 <= i < participants_spec(users).len() ==> users.contains(#[trigger] participants_spec(users)[i]),
    decreases users.len(),
{
    lemma_participants_len(users);
    if users.len() > 0 {
        law_participants_distinct(users.drop_last());
        let prev = participants_spec(users.drop_last());
        let p = participants_spec(users);
        assert forall|i: int| 0 <= i < p.len() implies users.contains(#[trigger] p[i]) by {
            if i < prev.len() {
                assert(p[i] == prev[i]);
                let j = choose|j: int| 0 <= j < users.drop_last().len() && users.drop_last()[j] == prev[i];
                assert(users[j] == users.drop_last()[j]);
            } else {
                assert(p[i] == users[users.len() - 1]);
            }
        }
        if !(prev.len() >= 5 || prev.contains(users.last())) {
            assert forall|i: int, j: int| 0 <= i < p.len() && 0 <= j < p.len() && i != j implies p[i] != p[j] by {
                if i < prev.len() && j < prev.len() {
                } else if i < prev.len() {
                    assert(p[i] == prev[i]);
                } else {
                    assert(p[j] == prev[j]);
                }
            }
        }
    }
}

/// Does a token name a custom emoji of the workspace?
pub open spec fn is_custom_emoji_token(ws: crate::state::Workspace, t: crate::emoji::TokenModel) -> bool {
    match t {
        crate::emoji::TokenModel::Emoji(n) => crate::state::custom_emoji_url_spec(ws.custom_emoji@, n) is Some,
        _ => false,
    }
}

/// Does a line of text use one of the workspace's custom emoji?
pub open spec fn has_custom_emoji(ws: crate::state::Workspace, line: Seq<char>) -> bool {
    exists|i: int|
        0 <= i < crate::emoji::tokens_spec(line).len() && #[trigger] is_custom_emoji_token(
            ws,
            crate::emoji::tokens_spec(line)[i],
        )
}

/// Whether `line` uses one of the workspace's custom emoji.
pub fn line_has_custom_emoji(ws: &crate::state::Workspace, line: &str) -> (r: bool)
    ensures
        r == has_custom_emoji(*ws, line@),
{
    let tokens = crate::emoji::emoji_text_tokens(line);
    let ghost t = crate::emoji::tokens_spec(line@);
    let mut i: usize = 0;
    while i < tokens.len()
        invariant
            i <= tokens@.len(),
            t == crate::emoji::tokens_spec(line@),
            crate::emoji::tokens_view(tokens@) == t,
            forall|j: int| 0 <= j < i ==> !#[trigger] is_custom_emoji_token(*ws, t[j]),
        decreases tokens@.len() - i,
    {
        assert(t[i as int] == tokens@[i as int]@);
        let custom = match &tokens[i] {
            crate::emoji::EmojiTextToken::Emoji(name) => {
                let found = ws.custom_emoji_url(name.as_str()).is_some();
                assert(found == is_custom_emoji_token(*ws, t[i as int]));
                found
            },
            crate::emoji::EmojiTextToken::Text(_) => false,
        };
        if custom {
            assert(is_custom_emoji_token(*ws, t[i as int]));
            return true;
        }
        i = i + 1;
    }
    false
}

} // verus!

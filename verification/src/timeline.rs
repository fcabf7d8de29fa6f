//! The message timeline of one channel: ordered insertion, optimistic
//! (pending) sends and their confirmation, edits and reactions.

use vstd::prelude::*;

use crate::models::{JsonMap, Message, MessageTs, reactions_view};
use crate::reactions;
use crate::ts;
use crate::ts_order;

verus! {

/// Messages of a channel, oldest first, with read state and history flags.
#[derive(Debug, Clone, Default)]
pub struct ChannelMessages {
    pub messages: Vec<Message>,
    pub loaded: bool,
    pub history_refreshing: bool,
    pub has_more_older: bool,
    pub history_loading_older: bool,
    pub history_failed: bool,
    /// Timestamps of optimistic local messages not yet confirmed by Slack.
    pub pending: Vec<MessageTs>,
    pub last_read: Option<MessageTs>,
    pub unread_count: u32,
    pub mention_count: u32,
}

// ---------------------------------------------------------------------------
// Model
// ---------------------------------------------------------------------------
/// A channel timeline as plain values.
pub struct TimelineModel {
    pub messages: Seq<Message>,
    pub loaded: bool,
    pub history_refreshing: bool,
    pub has_more_older: bool,
    pub history_loading_older: bool,
    pub history_failed: bool,
    pub pending: Seq<MessageTs>,
    pub last_read: Option<MessageTs>,
    pub unread_count: u32,
    pub mention_count: u32,
}

impl View for ChannelMessages {
    type V = TimelineModel;

    open spec fn view(&self) -> TimelineModel {
        TimelineModel {
            messages: self.messages@,
            loaded: self.loaded,
            history_refreshing: self.history_refreshing,
            has_more_older: self.has_more_older,
            history_loading_older: self.history_loading_older,
            history_failed: self.history_failed,
            pending: self.pending@,
            last_read: self.last_read,
            unread_count: self.unread_count,
            mention_count: self.mention_count,
        }
    }
}

/// A timeline with nothing loaded yet.
pub open spec fn empty_timeline() -> TimelineModel {
    TimelineModel {
        messages: Seq::empty(),
        loaded: false,
        history_refreshing: false,
        has_more_older: false,
        history_loading_older: false,
        history_failed: false,
        pending: Seq::empty(),
        last_read: None,
        unread_count: 0,
        mention_count: 0,
    }
}

impl ChannelMessages {
    /// A timeline with nothing loaded yet.
    pub fn new() -> (cm: Self)
        ensures
            cm@ == empty_timeline(),
    {
        ChannelMessages {
            messages: Vec::new(),
            loaded: false,
            history_refreshing: false,
            has_more_older: false,
            history_loading_older: false,
            history_failed: false,
            pending: Vec::new(),
            last_read: None,
            unread_count: 0,
            mention_count: 0,
        }
    }
}


pub open spec fn opt_view(s: Option<String>) -> Option<Seq<char>> {
    match s {
        Some(t) => Some(t@),
        None => None,
    }
}

pub open spec fn msg_ts(m: Message) -> Option<Seq<char>> {
    opt_view(m.ts)
}

/// Index of the first message whose timestamp is `ts`, or `s.len()`.
pub open spec fn find_ts(s: Seq<Message>, ts: Seq<char>) -> nat
    decreases s.len(),
{
    if s.len() == 0 {
        0
    } else if msg_ts(s[0]) == Some(ts) {
        0
    } else {
        1 + find_ts(s.drop_first(), ts)
    }
}

/// Where a message with timestamp `ts` goes: before the first message that
/// does not sort strictly before it.
pub open spec fn insert_pos(s: Seq<Message>, ts: Seq<char>) -> nat
    decreases s.len(),
{
    if s.len() == 0 {
        0
    } else if !ts_order::ts_before(msg_ts(s[0]), Some(ts)) {
        0
    } else {
        1 + insert_pos(s.drop_first(), ts)
    }
}

/// `upsert`: the messages afterwards, and whether a new message was added.
pub open spec fn upserted(s: Seq<Message>, msg: Message) -> (Seq<Message>, bool) {
    match msg_ts(msg) {
        None => (s.push(msg), true),
        Some(t) => if find_ts(s, t) < s.len() {
            (s.update(find_ts(s, t) as int, msg), false)
        } else {
            (s.insert(insert_pos(s, t) as int, msg), true)
        },
    }
}

/// The pending timestamps other than `ts`.
pub open spec fn without_ts(p: Seq<String>, ts: Seq<char>) -> Seq<String>
    decreases p.len(),
{
    if p.len() == 0 {
        Seq::empty()
    } else if p.last()@ == ts {
        without_ts(p.drop_last(), ts)
    } else {
        without_ts(p.drop_last(), ts).push(p.last())
    }
}

pub open spec fn in_pending(p: Seq<String>, ts: Seq<char>) -> bool {
    exists|k: int| 0 <= k < p.len() && (#[trigger] p[k])@ == ts
}

/// `remove`: messages and pending list afterwards, and whether a message went.
pub open spec fn removed(s: Seq<Message>, p: Seq<String>, ts: Seq<char>) -> (
    Seq<Message>,
    Seq<String>,
    bool,
) {
    if find_ts(s, ts) < s.len() {
        (s.remove(find_ts(s, ts) as int), without_ts(p, ts), true)
    } else {
        (s, p, false)
    }
}

/// A message still waiting for confirmation, sent with client id `cid`.
pub open spec fn is_confirm_target(m: Message, p: Seq<String>, cid: Seq<char>) -> bool {
    &&& opt_view(m.client_msg_id) == Some(cid)
    &&& m.ts is Some
    &&& in_pending(p, m.ts->0@)
}

/// Index of the first pending message sent with client id `cid`, or `s.len()`.
pub open spec fn confirm_index(s: Seq<Message>, p: Seq<String>, cid: Seq<char>) -> nat
    decreases s.len(),
{
    if s.len() == 0 {
        0
    } else if is_confirm_target(s[0], p, cid) {
        0
    } else {
        1 + confirm_index(s.drop_first(), p, cid)
    }
}

/// Removing the pending message `ts`, then inserting the confirmed one.
pub open spec fn replaced(s: Seq<Message>, p: Seq<String>, ts: Seq<char>, msg: Message) -> (
    Seq<Message>,
    Seq<String>,
) {
    let r = removed(s, p, ts);
    (upserted(r.0, msg).0, r.1)
}

/// `confirm`: messages and pending list afterwards, and whether a pending
/// message was replaced.
pub open spec fn confirmed(s: Seq<Message>, p: Seq<String>, cid: Seq<char>, msg: Message) -> (
    Seq<Message>,
    Seq<String>,
    bool,
) {
    let k = confirm_index(s, p, cid);
    if k < s.len() {
        let r = replaced(s, p, s[k as int].ts->0@, msg);
        (r.0, r.1, true)
    } else {
        (s, p, false)
    }
}

/// Is `m` a pending message from `user` with text `text`?
pub open spec fn is_pending_match(
    m: Message,
    p: Seq<String>,
    user: Option<Seq<char>>,
    text: Option<Seq<char>>,
) -> bool {
    &&& m.ts is Some
    &&& in_pending(p, m.ts->0@)
    &&& opt_view(m.user) == user
    &&& opt_view(m.text) == text
}

/// Timestamps of the pending messages from `user` with text `text`, in order.
pub open spec fn pending_matches(
    s: Seq<Message>,
    p: Seq<String>,
    user: Option<Seq<char>>,
    text: Option<Seq<char>>,
) -> Seq<Seq<char>>
    decreases s.len(),
{
    if s.len() == 0 {
        Seq::empty()
    } else if is_pending_match(s.last(), p, user, text) {
        pending_matches(s.drop_last(), p, user, text).push(s.last().ts->0@)
    } else {
        pending_matches(s.drop_last(), p, user, text)
    }
}

/// `confirm_matching_pending`: replaces the only matching pending message.
pub open spec fn confirmed_matching(
    s: Seq<Message>,
    p: Seq<String>,
    user: Option<Seq<char>>,
    text: Option<Seq<char>>,
    msg: Message,
) -> (Seq<Message>, Seq<String>, bool) {
    let m = pending_matches(s, p, user, text);
    if m.len() == 1 {
        let r = replaced(s, p, m[0], msg);
        (r.0, r.1, true)
    } else {
        (s, p, false)
    }
}

/// `a` later-or-equal by key test used by `max_by`/`min_by` folds.
pub open spec fn key_le_ts(a: String, b: String) -> bool {
    ts::key_le(ts::ts_key_spec(a@), ts::ts_key_spec(b@))
}

/// The newest timestamp, the last one among equal keys (`Iterator::max_by`).
pub open spec fn latest_of(s: Seq<Message>, p: Seq<String>, skip_pending: bool) -> Option<String>
    decreases s.len(),
{
    if s.len() == 0 {
        None
    } else {
        let prev = latest_of(s.drop_last(), p, skip_pending);
        match s.last().ts {
            None => prev,
            Some(t) => if skip_pending && in_pending(p, t@) {
                prev
            } else {
                match prev {
                    None => Some(t),
                    Some(m) => if key_le_ts(m, t) {
                        Some(t)
                    } else {
                        Some(m)
                    },
                }
            },
        }
    }
}

/// The oldest timestamp, the first one among equal keys (`Iterator::min_by`).
pub open spec fn oldest_of(s: Seq<Message>) -> Option<String>
    decreases s.len(),
{
    if s.len() == 0 {
        None
    } else {
        let prev = oldest_of(s.drop_last());
        match s.last().ts {
            None => prev,
            Some(t) => match prev {
                None => Some(t),
                Some(m) => if key_le_ts(m, t) {
                    Some(m)
                } else {
                    Some(t)
                },
            },
        }
    }
}

/// Every message has a timestamp and they are in ascending order.
pub open spec fn sorted(s: Seq<Message>) -> bool {
    &&& forall|i: int| 0 <= i < s.len() ==> (#[trigger] s[i]).ts is Some
    &&& forall|i: int, j: int|
        0 <= i < j < s.len() ==> !ts_order::ts_before(msg_ts(#[trigger] s[j]), msg_ts(#[trigger] s[i]))
}

/// No two messages share a timestamp.
pub open spec fn distinct_ts(s: Seq<Message>) -> bool {
    forall|i: int, j: int|
        0 <= i < j < s.len() ==> msg_ts(#[trigger] s[i]) != msg_ts(#[trigger] s[j])
}

// ---------------------------------------------------------------------------
// Lemmas on the model
// ---------------------------------------------------------------------------

pub proof fn lemma_find_ts(s: Seq<Message>, ts: Seq<char>, i: int)
    requires
        0 <= i <= s.len(),
        forall|k: int| 0 <= k < i ==> msg_ts(#[trigger] s[k]) != Some(ts),
        i == s.len() || msg_ts(s[i]) == Some(ts),
    ensures
        find_ts(s, ts) == i,
    decreases s.len(),
{
    if s.len() > 0 && i > 0 {
        assert(msg_ts(s[0]) != Some(ts));
        assert forall|k: int| 0 <= k < i - 1 implies msg_ts(#[trigger] s.drop_first()[k]) != Some(ts) by {
            assert(s.drop_first()[k] == s[k + 1]);
        }
        lemma_find_ts(s.drop_first(), ts, i - 1);
    }
}

pub proof fn lemma_find_ts_bound(s: Seq<Message>, ts: Seq<char>)
    ensures
        find_ts(s, ts) <= s.len(),
        find_ts(s, ts) < s.len() ==> msg_ts(s[find_ts(s, ts) as int]) == Some(ts),
        forall|k: int| 0 <= k < find_ts(s, ts) ==> msg_ts(#[trigger] s[k]) != Some(ts),
    decreases s.len(),
{
    if s.len() > 0 && msg_ts(s[0]) != Some(ts) {
        lemma_find_ts_bound(s.drop_first(), ts);
        assert forall|k: int| 0 <= k < find_ts(s, ts) implies msg_ts(#[trigger] s[k]) != Some(ts) by {
            if k > 0 {
                assert(s[k] == s.drop_first()[k - 1]);
            }
        }
    }
}

pub proof fn lemma_insert_pos(s: Seq<Message>, ts: Seq<char>, i: int)
    requires
        0 <= i <= s.len(),
        forall|k: int| 0 <= k < i ==> ts_order::ts_before(msg_ts(#[trigger] s[k]), Some(ts)),
        i == s.len() || !ts_order::ts_before(msg_ts(s[i]), Some(ts)),
    ensures
        insert_pos(s, ts) == i,
    decreases s.len(),
{
    if s.len() > 0 && i > 0 {
        assert(ts_order::ts_before(msg_ts(s[0]), Some(ts)));
        assert forall|k: int| 0 <= k < i - 1 implies ts_order::ts_before(
            msg_ts(#[trigger] s.drop_first()[k]),
            Some(ts),
        ) by {
            assert(s.drop_first()[k] == s[k + 1]);
        }
        lemma_insert_pos(s.drop_first(), ts, i - 1);
    }
}

pub proof fn lemma_insert_pos_bound(s: Seq<Message>, ts: Seq<char>)
    ensures
        insert_pos(s, ts) <= s.len(),
        insert_pos(s, ts) < s.len() ==> !ts_order::ts_before(msg_ts(s[insert_pos(s, ts) as int]), Some(ts)),
        forall|k: int| 0 <= k < insert_pos(s, ts) ==> ts_order::ts_before(msg_ts(#[trigger] s[k]), Some(ts)),
    decreases s.len(),
{
    if s.len() > 0 && ts_order::ts_before(msg_ts(s[0]), Some(ts)) {
        lemma_insert_pos_bound(s.drop_first(), ts);
        assert forall|k: int| 0 <= k < insert_pos(s, ts) implies ts_order::ts_before(
            msg_ts(#[trigger] s[k]),
            Some(ts),
        ) by {
            if k > 0 {
                assert(s[k] == s.drop_first()[k - 1]);
            }
        }
    }
}

proof fn lemma_without_ts_absent(p: Seq<String>, ts: Seq<char>)
    ensures
        !in_pending(without_ts(p, ts), ts),
    decreases p.len(),
{
    if p.len() > 0 {
        lemma_without_ts_absent(p.drop_last(), ts);
        let w = without_ts(p.drop_last(), ts);
        if p.last()@ != ts {
            assert forall|k: int| 0 <= k < w.push(p.last()).len() implies (#[trigger] w.push(p.last())[k])@ != ts by {
                if k < w.len() {
                    assert(w.push(p.last())[k] == w[k]);
                }
            }
        }
    }
}

proof fn lemma_insert_keeps_order(s: Seq<Message>, msg: Message)
    requires
        sorted(s),
        msg.ts is Some,
        find_ts(s, msg.ts->0@) == s.len(),
    ensures
        sorted(s.insert(insert_pos(s, msg.ts->0@) as int, msg)),
{
    let t = msg.ts->0@;
    let pos = insert_pos(s, t) as int;
    let r = s.insert(pos, msg);
    lemma_insert_pos_bound(s, t);
    assert forall|a: int| 0 <= a < r.len() implies (#[trigger] r[a]).ts is Some by {
        if a < pos {
            assert(r[a] == s[a]);
        } else if a > pos {
            assert(r[a] == s[a - 1]);
        }
    }
    assert forall|a: int, b: int| 0 <= a < b < r.len() implies !ts_order::ts_before(
        msg_ts(#[trigger] r[b]),
        msg_ts(#[trigger] r[a]),
    ) by {
        if b < pos {
            assert(r[a] == s[a] && r[b] == s[b]);
        } else if a > pos {
            assert(r[a] == s[a - 1] && r[b] == s[b - 1]);
        } else if a == pos {
            lemma_after_insert(s, t, pos, b - 1);
            assert(r[b] == s[b - 1]);
        } else if b == pos {
            assert(r[a] == s[a]);
            ts_order::lemma_ts_before_order(msg_ts(s[a]), Some(t), Some(t));
        } else {
            assert(r[a] == s[a] && r[b] == s[b - 1]);
        }
    }
}

proof fn lemma_after_insert(s: Seq<Message>, t: Seq<char>, pos: int, j: int)
    requires
        sorted(s),
        pos == insert_pos(s, t),
        pos <= j < s.len(),
    ensures
        !ts_order::ts_before(msg_ts(s[j]), Some(t)),
{
    lemma_insert_pos_bound(s, t);
    ts_order::lemma_ts_before_order(msg_ts(s[j]), msg_ts(s[pos]), Some(t));
    if j > pos {
        assert(!ts_order::ts_before(msg_ts(s[j]), msg_ts(s[pos])));
    }
}

/// `upsert` keeps a sorted timeline sorted.
pub proof fn law_upsert_keeps_order(s: Seq<Message>, msg: Message)
    requires
        sorted(s),
        msg.ts is Some,
    ensures
        sorted(upserted(s, msg).0),
{
    let t = msg.ts->0@;
    let r = upserted(s, msg).0;
    lemma_find_ts_bound(s, t);
    if find_ts(s, t) < s.len() {
        let i = find_ts(s, t) as int;
        assert forall|a: int, b: int| 0 <= a < b < r.len() implies !ts_order::ts_before(
            msg_ts(#[trigger] r[b]),
            msg_ts(#[trigger] r[a]),
        ) by {
            assert(msg_ts(r[a]) == msg_ts(s[a]));
            assert(msg_ts(r[b]) == msg_ts(s[b]));
        }
    } else {
        lemma_insert_keeps_order(s, msg);
    }
}

/// `upsert` never creates a second message with the same timestamp; an
/// existing timestamp is replaced in place.
pub proof fn law_upsert_dedupes(s: Seq<Message>, msg: Message)
    requires
        distinct_ts(s),
        msg.ts is Some,
    ensures
        distinct_ts(upserted(s, msg).0),
        find_ts(s, msg.ts->0@) < s.len() ==> upserted(s, msg).0.len() == s.len(),
        find_ts(upserted(s, msg).0, msg.ts->0@) < upserted(s, msg).0.len(),
{
    let t = msg.ts->0@;
    let r = upserted(s, msg).0;
    lemma_find_ts_bound(s, t);
    if find_ts(s, t) < s.len() {
        let i = find_ts(s, t) as int;
        assert forall|a: int, b: int| 0 <= a < b < r.len() implies msg_ts(#[trigger] r[a]) != msg_ts(
            #[trigger] r[b],
        ) by {
            assert(msg_ts(r[a]) == msg_ts(s[a]));
            assert(msg_ts(r[b]) == msg_ts(s[b]));
        }
        lemma_find_ts_bound(r, t);
        if find_ts(r, t) == r.len() {
            assert(msg_ts(r[i]) == Some(t));
        }
    } else {
        let pos = insert_pos(s, t) as int;
        lemma_insert_pos_bound(s, t);
        assert forall|a: int| 0 <= a < s.len() implies msg_ts(#[trigger] s[a]) != Some(t) by {}
        assert forall|a: int, b: int| 0 <= a < b < r.len() implies msg_ts(#[trigger] r[a]) != msg_ts(
            #[trigger] r[b],
        ) by {
            if b < pos {
                assert(r[a] == s[a] && r[b] == s[b]);
            } else if a > pos {
                assert(r[a] == s[a - 1] && r[b] == s[b - 1]);
            } else if a == pos {
                assert(r[b] == s[b - 1]);
            } else if b == pos {
                assert(r[a] == s[a]);
            } else {
                assert(r[a] == s[a] && r[b] == s[b - 1]);
            }
        }
        lemma_find_ts_bound(r, t);
        if find_ts(r, t) == r.len() {
            assert(msg_ts(r[pos]) == Some(t));
        }
    }
}

/// After `remove`, the removed timestamp is no longer pending, and in a
/// timeline without duplicate timestamps no message carries it any more.
pub proof fn law_remove_forgets(s: Seq<Message>, p: Seq<String>, ts: Seq<char>)
    requires
        distinct_ts(s),
        find_ts(s, ts) < s.len(),
    ensures
        !in_pending(removed(s, p, ts).1, ts),
        find_ts(removed(s, p, ts).0, ts) == removed(s, p, ts).0.len(),
        removed(s, p, ts).0.len() == s.len() - 1,
{
    lemma_without_ts_absent(p, ts);
    lemma_find_ts_bound(s, ts);
    let i = find_ts(s, ts) as int;
    let r = s.remove(i);
    assert forall|k: int| 0 <= k < r.len() implies msg_ts(#[trigger] r[k]) != Some(ts) by {
        if k < i {
            assert(r[k] == s[k]);
        } else {
            assert(r[k] == s[k + 1]);
            assert(msg_ts(s[i]) != msg_ts(s[k + 1]));
        }
    }
    lemma_find_ts(r, ts, r.len() as int);
}

/// A successful `confirm` drops the optimistic message's pending mark and
/// leaves the confirmed message in the timeline.
pub proof fn law_confirm_reconciles(s: Seq<Message>, p: Seq<String>, cid: Seq<char>, msg: Message)
    requires
        confirmed(s, p, cid, msg).2,
        msg.ts is Some,
    ensures
        !in_pending(confirmed(s, p, cid, msg).1, s[confirm_index(s, p, cid) as int].ts->0@),
        find_ts(confirmed(s, p, cid, msg).0, msg.ts->0@) < confirmed(s, p, cid, msg).0.len(),
{
    let k = confirm_index(s, p, cid) as int;
    lemma_confirm_index_bound(s, p, cid);
    let t = s[k].ts->0@;
    lemma_without_ts_absent(p, t);
    lemma_find_ts_bound(s, t);
    assert(msg_ts(s[k]) == Some(t));
    let r = removed(s, p, t);
    lemma_find_ts_bound(r.0, msg.ts->0@);
    let u = upserted(r.0, msg).0;
    lemma_find_ts_bound(u, msg.ts->0@);
    if find_ts(r.0, msg.ts->0@) < r.0.len() {
        assert(msg_ts(u[find_ts(r.0, msg.ts->0@) as int]) == Some(msg.ts->0@));
    } else {
        lemma_insert_pos_bound(r.0, msg.ts->0@);
        assert(msg_ts(u[insert_pos(r.0, msg.ts->0@) as int]) == Some(msg.ts->0@));
    }
}

// ---------------------------------------------------------------------------
// Executable operations
// ---------------------------------------------------------------------------

impl ChannelMessages {
    /// Position of the first message with timestamp `ts`.
    pub fn index_of(&self, ts: &str) -> (r: Option<usize>)
        ensures
            match r {
                Some(i) => i == find_ts(self.messages@, ts@) && i < self.messages@.len(),
                None => find_ts(self.messages@, ts@) == self.messages@.len(),
            },
    {
        let mut i: usize = 0;
        while i < self.messages.len()
            invariant
                i <= self.messages@.len(),
                forall|k: int| 0 <= k < i ==> msg_ts(#[trigger] self.messages@[k]) != Some(ts@),
            decreases self.messages.len() - i,
        {
            if crate::text::opt_eq_str(&self.messages[i].ts, ts) {
                proof {
                    lemma_find_ts(self.messages@, ts@, i as int);
                }
                return Some(i);
            }
            i = i + 1;
        }
        proof {
            lemma_find_ts(self.messages@, ts@, i as int);
        }
        None
    }

    /// Where a message with timestamp `ts` is inserted.
    fn insertion_point(&self, ts: &str) -> (r: usize)
        ensures
            r == insert_pos(self.messages@, ts@),
    {
        let mut i: usize = 0;
        while i < self.messages.len()
            invariant
                i <= self.messages@.len(),
                forall|k: int|
                    0 <= k < i ==> ts_order::ts_before(msg_ts(#[trigger] self.messages@[k]), Some(ts@)),
            decreases self.messages.len() - i,
        {
            let before = match &self.messages[i].ts {
                Some(t) => ts_order::ts_is_before(Some(t.as_str()), Some(ts)),
                None => ts_order::ts_is_before(None, Some(ts)),
            };
            if !before {
                proof {
                    lemma_insert_pos(self.messages@, ts@, i as int);
                }
                return i;
            }
            i = i + 1;
        }
        proof {
            lemma_insert_pos(self.messages@, ts@, i as int);
        }
        i
    }

    /// Inserts a message in timestamp order, or replaces the message with the
    /// same timestamp. Returns whether a new message was added.
    pub fn upsert(&mut self, msg: Message) -> (added: bool)
        ensures
            final(self).messages@ == upserted(old(self).messages@, msg).0,
            added == upserted(old(self).messages@, msg).1,
            *final(self) == (ChannelMessages { messages: final(self).messages, ..*old(self) }),
    {
        let ts = match &msg.ts {
            Some(t) => t.clone(),
            None => {
                self.messages.push(msg);
                return true;
            },
        };
        match self.index_of(ts.as_str()) {
            Some(i) => {
                self.messages[i] = msg;
                false
            },
            None => {
                let pos = self.insertion_point(ts.as_str());
                proof {
                    lemma_insert_pos_bound(self.messages@, ts@);
                }
                self.messages.insert(pos, msg);
                true
            },
        }
    }

    /// The pending timestamps other than `ts`.
    fn pending_without(pending: &Vec<MessageTs>, ts: &str) -> (r: Vec<MessageTs>)
        ensures
            r@ == without_ts(pending@, ts@),
    {
        let mut r: Vec<MessageTs> = Vec::new();
        for i in 0..pending.len()
            invariant
                r@ == without_ts(pending@.take(i as int), ts@),
        {
            assert(pending@.take(i + 1).drop_last() =~= pending@.take(i as int));
            if !crate::text::str_eq(pending[i].as_str(), ts) {
                r.push(pending[i].clone());
            }
        }
        assert(pending@.take(pending.len() as int) =~= pending@);
        r
    }

    /// Removes the message with timestamp `ts` (and its pending mark).
    pub fn remove(&mut self, ts: &str) -> (found: bool)
        ensures
            final(self).messages@ == removed(old(self).messages@, old(self).pending@, ts@).0,
            final(self).pending@ == removed(old(self).messages@, old(self).pending@, ts@).1,
            found == removed(old(self).messages@, old(self).pending@, ts@).2,
            *final(self) == (ChannelMessages {
                messages: final(self).messages,
                pending: final(self).pending,
                ..*old(self)
            }),
    {
        match self.index_of(ts) {
            Some(i) => {
                self.messages.remove(i);
                let kept = Self::pending_without(&self.pending, ts);
                self.pending = kept;
                true
            },
            None => false,
        }
    }

    /// Is `ts` an optimistic message still waiting for confirmation?
    pub fn is_pending(&self, ts: &str) -> (r: bool)
        ensures
            r == in_pending(self.pending@, ts@),
    {
        let mut i: usize = 0;
        while i < self.pending.len()
            invariant
                i <= self.pending@.len(),
                forall|k: int| 0 <= k < i ==> (#[trigger] self.pending@[k])@ != ts@,
            decreases self.pending.len() - i,
        {
            if crate::text::str_eq(self.pending[i].as_str(), ts) {
                return true;
            }
            i = i + 1;
        }
        false
    }

    /// Position of the first pending message sent with `client_msg_id`.
    fn confirm_position(&self, client_msg_id: &str) -> (k: usize)
        ensures
            k == confirm_index(self.messages@, self.pending@, client_msg_id@),
            k <= self.messages@.len(),
            k < self.messages@.len() ==> is_confirm_target(self.messages@[k as int], self.pending@, client_msg_id@),
    {
        let ghost s = self.messages@;
        let ghost p = self.pending@;
        let mut k: usize = 0;
        while k < self.messages.len()
            invariant
                k <= self.messages@.len(),
                s == self.messages@,
                p == self.pending@,
                forall|j: int| 0 <= j < k ==> !is_confirm_target(#[trigger] s[j], p, client_msg_id@),
            decreases self.messages.len() - k,
        {
            let m = &self.messages[k];
            let hit = match (&m.client_msg_id, &m.ts) {
                (Some(cid), Some(t)) => crate::text::str_eq(cid.as_str(), client_msg_id)
                    && self.is_pending(t.as_str()),
                _ => false,
            };
            if hit {
                proof {
                    lemma_confirm_index(s, p, client_msg_id@, k as int);
                }
                return k;
            }
            k = k + 1;
        }
        proof {
            lemma_confirm_index(s, p, client_msg_id@, k as int);
        }
        k
    }

    /// Replaces the pending message sent with `client_msg_id` by the message
    /// Slack confirmed. Returns whether there was such a pending message.
    pub fn confirm(&mut self, client_msg_id: &str, confirmed_msg: Message) -> (found: bool)
        ensures
            final(self).messages@ == confirmed(
                old(self).messages@,
                old(self).pending@,
                client_msg_id@,
                confirmed_msg,
            ).0,
            final(self).pending@ == confirmed(
                old(self).messages@,
                old(self).pending@,
                client_msg_id@,
                confirmed_msg,
            ).1,
            found == confirmed(old(self).messages@, old(self).pending@, client_msg_id@, confirmed_msg).2,
            *final(self) == (ChannelMessages {
                messages: final(self).messages,
                pending: final(self).pending,
                ..*old(self)
            }),
    {
        let k = self.confirm_position(client_msg_id);
        let target: Option<String> = if k < self.messages.len() {
            self.messages[k].ts.clone()
        } else {
            None
        };
        match target {
            Some(t) => {
                self.remove(t.as_str());
                self.upsert(confirmed_msg);
                true
            },
            None => false,
        }
    }

    /// Replaces the only pending message from `user` with text `text` by the
    /// confirmed message; does nothing when there is none or more than one.
    pub fn confirm_matching_pending(
        &mut self,
        user: Option<&str>,
        text: Option<&str>,
        confirmed_msg: Message,
    ) -> (found: bool)
        ensures
            final(self).messages@ == confirmed_matching(
                old(self).messages@,
                old(self).pending@,
                ts_order::view_opt(user),
                ts_order::view_opt(text),
                confirmed_msg,
            ).0,
            final(self).pending@ == confirmed_matching(
                old(self).messages@,
                old(self).pending@,
                ts_order::view_opt(user),
                ts_order::view_opt(text),
                confirmed_msg,
            ).1,
            found == confirmed_matching(
                old(self).messages@,
                old(self).pending@,
                ts_order::view_opt(user),
                ts_order::view_opt(text),
                confirmed_msg,
            ).2,
            *final(self) == (ChannelMessages {
                messages: final(self).messages,
                pending: final(self).pending,
                ..*old(self)
            }),
    {
        let ghost s = self.messages@;
        let ghost p = self.pending@;
        let ghost u = ts_order::view_opt(user);
        let ghost x = ts_order::view_opt(text);
        let mut count: usize = 0;
        let mut first: Option<String> = None;
        for k in 0..self.messages.len()
            invariant
                s == self.messages@,
                p == self.pending@,
                u == ts_order::view_opt(user),
                x == ts_order::view_opt(text),
                count == pending_matches(s.take(k as int), p, u, x).len(),
                count == 0 ==> first is None,
                count >= 1 ==> first is Some && opt_view(first) == Some(
                    pending_matches(s.take(k as int), p, u, x)[0],
                ),
                count <= k,
        {
            assert(s.take(k + 1).drop_last() =~= s.take(k as int));
            let m = &self.messages[k];
            let hit = match &m.ts {
                Some(t) => self.is_pending(t.as_str()) && opt_matches(&m.user, user) && opt_matches(
                    &m.text,
                    text,
                ),
                None => false,
            };
            assert(s.take(k + 1).last() == s[k as int]);
            assert(hit == is_pending_match(s[k as int], p, u, x));
            let ghost prev = pending_matches(s.take(k as int), p, u, x);
            if hit {
                if count == 0 {
                    first = m.ts.clone();
                }
                assert(prev.push(s[k as int].ts->0@)[0] == (if prev.len() > 0 { prev[0] } else { s[k as int].ts->0@ }));
                count = count + 1;
            }
        }
        assert(s.take(s.len() as int) =~= s);
        if count == 1 {
            match first {
                Some(t) => {
                    self.remove(t.as_str());
                    self.upsert(confirmed_msg);
                    true
                },
                None => false,
            }
        } else {
            false
        }
    }

    /// Merges an edit into the message with the same timestamp, or inserts it.
    /// Returns whether a new message was added.
    pub fn merge_update(&mut self, update: Message) -> (added: bool)
        ensures
            match msg_ts(update) {
                None => final(self).messages@ == old(self).messages@.push(update) && added,
                Some(t) => if find_ts(old(self).messages@, t) < old(self).messages@.len() {
                    let i = find_ts(old(self).messages@, t) as int;
                    &&& final(self).messages@.len() == old(self).messages@.len()
                    &&& forall|k: int|
                        0 <= k < old(self).messages@.len() && k != i ==> final(self).messages@[k]
                            == old(self).messages@[k]
                    &&& merged_with(old(self).messages@[i], update, final(self).messages@[i])
                    &&& !added
                } else {
                    &&& final(self).messages@ == upserted(old(self).messages@, update).0
                    &&& added
                },
            },
            *final(self) == (ChannelMessages { messages: final(self).messages, ..*old(self) }),
    {
        let ts = match &update.ts {
            Some(t) => t.clone(),
            None => {
                self.messages.push(update);
                return true;
            },
        };
        match self.index_of(ts.as_str()) {
            Some(i) => {
                merge_message(&mut self.messages[i], update);
                false
            },
            None => self.upsert(update),
        }
    }

    /// The newest timestamp in the channel.
    pub fn latest_ts(&self) -> (r: Option<MessageTs>)
        ensures
            r == latest_of(self.messages@, self.pending@, false),
    {
        latest_among(&self.messages, &self.pending, false)
    }

    /// The newest timestamp that is not an unconfirmed local message.
    pub fn latest_confirmed_ts(&self) -> (r: Option<MessageTs>)
        ensures
            r == latest_of(self.messages@, self.pending@, true),
    {
        latest_among(&self.messages, &self.pending, true)
    }

    /// The oldest timestamp in the channel.
    pub fn oldest_ts(&self) -> (r: Option<MessageTs>)
        ensures
            r == oldest_of(self.messages@),
    {
        let mut best: Option<MessageTs> = None;
        for k in 0..self.messages.len()
            invariant
                best == oldest_of(self.messages@.take(k as int)),
        {
            assert(self.messages@.take(k + 1).drop_last() =~= self.messages@.take(k as int));
            match &self.messages[k].ts {
                Some(t) => {
                    let replace = match &best {
                        None => true,
                        Some(m) => !ts_key_le(m.as_str(), t.as_str()),
                    };
                    if replace {
                        best = Some(t.clone());
                    }
                },
                None => {},
            }
        }
        assert(self.messages@.take(self.messages.len() as int) =~= self.messages@);
        best
    }

    /// Applies a reaction event to the message with timestamp `ts`.
    /// Returns whether anything changed.
    pub fn apply_reaction(&mut self, ts: &str, user: &str, name: &str, added: bool) -> (changed: bool)
        ensures
            find_ts(old(self).messages@, ts@) < old(self).messages@.len() ==> {
                let i = find_ts(old(self).messages@, ts@) as int;
                &&& final(self).messages@.len() == old(self).messages@.len()
                &&& forall|k: int|
                    0 <= k < old(self).messages@.len() && k != i ==> final(self).messages@[k]
                        == old(self).messages@[k]
                &&& reactions_view(final(self).messages@[i].reactions@) == reactions::reacted(
                    reactions_view(old(self).messages@[i].reactions@),
                    user@,
                    name@,
                    added,
                ).0
                &&& final(self).messages@[i] == (Message {
                    reactions: final(self).messages@[i].reactions,
                    ..old(self).messages@[i]
                })
                &&& changed == reactions::reacted(
                    reactions_view(old(self).messages@[i].reactions@),
                    user@,
                    name@,
                    added,
                ).1
            },
            find_ts(old(self).messages@, ts@) == old(self).messages@.len() ==> !changed
                && final(self).messages@ == old(self).messages@,
            *final(self) == (ChannelMessages { messages: final(self).messages, ..*old(self) }),
    {
        match self.index_of(ts) {
            Some(i) => reactions::apply_message_reaction(&mut self.messages[i], user, name, added),
            None => false,
        }
    }
}

/// Compares an optional message field with an optional string slice.
fn opt_matches(a: &Option<String>, b: Option<&str>) -> (r: bool)
    ensures
        r == (opt_view(*a) == ts_order::view_opt(b)),
{
    match (a, b) {
        (Some(x), Some(y)) => crate::text::str_eq(x.as_str(), y),
        (None, None) => true,
        _ => false,
    }
}

/// Is the key of `a` at most the key of `b`?
pub fn ts_key_le(a: &str, b: &str) -> (r: bool)
    ensures
        r == ts::key_le(ts::ts_key_spec(a@), ts::ts_key_spec(b@)),
{
    let ka = ts::ts_key(a);
    let kb = ts::ts_key(b);
    ka.0 < kb.0 || (ka.0 == kb.0 && ka.1 <= kb.1)
}

/// The newest timestamp, optionally skipping pending ones.
fn latest_among(messages: &Vec<Message>, pending: &Vec<MessageTs>, skip_pending: bool) -> (r: Option<
    MessageTs,
>)
    ensures
        r == latest_of(messages@, pending@, skip_pending),
{
    let mut best: Option<MessageTs> = None;
    for k in 0..messages.len()
        invariant
            best == latest_of(messages@.take(k as int), pending@, skip_pending),
    {
        assert(messages@.take(k + 1).drop_last() =~= messages@.take(k as int));
        match &messages[k].ts {
            Some(t) => {
                let skip = skip_pending && pending_has(pending, t.as_str());
                if !skip {
                    let replace = match &best {
                        None => true,
                        Some(m) => ts_key_le(m.as_str(), t.as_str()),
                    };
                    if replace {
                        best = Some(t.clone());
                    }
                }
            },
            None => {},
        }
    }
    assert(messages@.take(messages.len() as int) =~= messages@);
    best
}

fn pending_has(pending: &Vec<MessageTs>, ts: &str) -> (r: bool)
    ensures
        r == in_pending(pending@, ts@),
{
    let mut i: usize = 0;
    while i < pending.len()
        invariant
            i <= pending@.len(),
            forall|k: int| 0 <= k < i ==> (#[trigger] pending@[k])@ != ts@,
        decreases pending.len() - i,
    {
        if crate::text::str_eq(pending[i].as_str(), ts) {
            return true;
        }
        i = i + 1;
    }
    false
}

proof fn lemma_confirm_index_bound(s: Seq<Message>, p: Seq<String>, cid: Seq<char>)
    ensures
        confirm_index(s, p, cid) <= s.len(),
        confirm_index(s, p, cid) < s.len() ==> is_confirm_target(s[confirm_index(s, p, cid) as int], p, cid),
    decreases s.len(),
{
    if s.len() > 0 && !is_confirm_target(s[0], p, cid) {
        lemma_confirm_index_bound(s.drop_first(), p, cid);
        if confirm_index(s, p, cid) < s.len() {
            assert(s[confirm_index(s, p, cid) as int] == s.drop_first()[confirm_index(s.drop_first(), p, cid) as int]);
        }
    }
}

proof fn lemma_confirm_index(s: Seq<Message>, p: Seq<String>, cid: Seq<char>, k: int)
    requires
        0 <= k <= s.len(),
        forall|j: int| 0 <= j < k ==> !is_confirm_target(#[trigger] s[j], p, cid),
        k == s.len() || is_confirm_target(s[k], p, cid),
    ensures
        confirm_index(s, p, cid) == k,
    decreases s.len(),
{
    if s.len() > 0 && k > 0 {
        assert(!is_confirm_target(s[0], p, cid));
        assert forall|j: int| 0 <= j < k - 1 implies !is_confirm_target(#[trigger] s.drop_first()[j], p, cid) by {
            assert(s.drop_first()[j] == s[j + 1]);
        }
        lemma_confirm_index(s.drop_first(), p, cid, k - 1);
    }
}

// ---------------------------------------------------------------------------
// Merging an edit into a message
// ---------------------------------------------------------------------------

pub open spec fn or_else<T>(a: Option<T>, b: Option<T>) -> Option<T> {
    match a {
        Some(x) => Some(x),
        None => b,
    }
}

/// The entries of `a` whose key is not a key of `b`.
pub open spec fn keys_not_in(a: Seq<(String, crate::models::JsonValue)>, b: Seq<(String, crate::models::JsonValue)>) -> Seq<
    (String, crate::models::JsonValue),
>
    decreases a.len(),
{
    if a.len() == 0 {
        Seq::empty()
    } else if crate::models::lookup(b, a[0].0@) is Some {
        keys_not_in(a.drop_first(), b)
    } else {
        seq![a[0]] + keys_not_in(a.drop_first(), b)
    }
}

/// `BTreeMap::extend`: the entries of `update`, then those of `existing`
/// under keys that `update` does not have.
pub open spec fn map_extend(
    existing: Seq<(String, crate::models::JsonValue)>,
    update: Seq<(String, crate::models::JsonValue)>,
) -> Seq<(String, crate::models::JsonValue)> {
    update + keys_not_in(existing, update)
}

/// `merged` is `existing` with the fields of `update` laid over it: present
/// optional fields and non-empty lists of the update win, extra fields are
/// merged key by key.
pub open spec fn merged_with(existing: Message, update: Message, merged: Message) -> bool {
    &&& merged.user == or_else(update.user, existing.user)
    &&& merged.bot_id == or_else(update.bot_id, existing.bot_id)
    &&& merged.username == or_else(update.username, existing.username)
    &&& merged.bot_profile == or_else(update.bot_profile, existing.bot_profile)
    &&& merged.icons == or_else(update.icons, existing.icons)
    &&& merged.kind == or_else(update.kind, existing.kind)
    &&& merged.subtype == or_else(update.subtype, existing.subtype)
    &&& merged.ts == existing.ts
    &&& merged.client_msg_id == or_else(update.client_msg_id, existing.client_msg_id)
    &&& merged.text == or_else(update.text, existing.text)
    &&& merged.team == or_else(update.team, existing.team)
    &&& merged.channel == or_else(update.channel, existing.channel)
    &&& merged.thread_ts == or_else(update.thread_ts, existing.thread_ts)
    &&& merged.parent_user_id == or_else(update.parent_user_id, existing.parent_user_id)
    &&& merged.reply_count == or_else(update.reply_count, existing.reply_count)
    &&& merged.reply_users_count == or_else(update.reply_users_count, existing.reply_users_count)
    &&& merged.latest_reply == or_else(update.latest_reply, existing.latest_reply)
    &&& merged.reply_users == (if update.reply_users@.len() > 0 {
        update.reply_users
    } else {
        existing.reply_users
    })
    &&& merged.reactions == (if update.reactions@.len() > 0 {
        update.reactions
    } else {
        existing.reactions
    })
    &&& merged.blocks == (if update.blocks@.len() > 0 {
        update.blocks
    } else {
        existing.blocks
    })
    &&& merged.files == (if update.files@.len() > 0 {
        update.files
    } else {
        existing.files
    })
    &&& merged.attachments == (if update.attachments@.len() > 0 {
        update.attachments
    } else {
        existing.attachments
    })
    &&& merged.edited == or_else(update.edited, existing.edited)
    &&& merged.message == or_else(update.message, existing.message)
    &&& merged.extra@ == map_extend(existing.extra@, update.extra@)
}

/// `existing.extra.extend(update.extra)`, as a new list.
pub fn extend_map(existing: JsonMap, update: JsonMap) -> (r: JsonMap)
    ensures
        r@ == map_extend(existing@, update@),
{
    let mut kept: JsonMap = Vec::new();
    let mut rest = existing;
    let ghost all = rest@;
    while rest.len() > 0
        invariant
            kept@ + keys_not_in(rest@, update@) == keys_not_in(all, update@),
        decreases rest.len(),
    {
        let ghost before = rest@;
        let entry = rest.remove(0);
        assert(rest@ =~= before.drop_first());
        let present = crate::models::get(&update, entry.0.as_str()).is_some();
        if !present {
            kept.push(entry);
            assert(kept@ + keys_not_in(rest@, update@) =~= keys_not_in(all, update@));
        }
    }
    assert(kept@ + Seq::empty() =~= kept@);
    let mut r = update;
    r.append(&mut kept);
    r
}

/// The update's value when it has one, else the existing value.
pub fn prefer<T>(update: Option<T>, existing: Option<T>) -> (r: Option<T>)
    ensures
        r == or_else(update, existing),
{
    match update {
        Some(x) => Some(x),
        None => existing,
    }
}

/// The update's list when it is not empty, else the existing list.
fn prefer_non_empty<T>(update: Vec<T>, existing: Vec<T>) -> (r: Vec<T>)
    ensures
        r == (if update@.len() > 0 {
            update
        } else {
            existing
        }),
{
    if update.len() > 0 {
        update
    } else {
        existing
    }
}

/// Moves a list out, leaving an empty one.
fn take_vec<T>(v: &mut Vec<T>) -> (r: Vec<T>)
    ensures
        r == *old(v),
{
    let mut r: Vec<T> = Vec::new();
    std::mem::swap(&mut r, v);
    r
}

/// Lays an edit over a stored message: present optional fields and
/// non-empty lists of the update win, extra fields are merged key by key.
/// The stored timestamp is kept.
pub fn merge_message(existing: &mut Message, update: Message)
    ensures
        merged_with(*old(existing), update, *final(existing)),
{
    let Message {
        user,
        bot_id,
        username,
        bot_profile,
        icons,
        kind,
        subtype,
        ts: _,
        client_msg_id,
        text,
        team,
        channel,
        thread_ts,
        parent_user_id,
        reply_count,
        reply_users_count,
        latest_reply,
        reply_users,
        reactions,
        blocks,
        files,
        attachments,
        edited,
        message,
        extra,
    } = update;
    existing.user = prefer(user, existing.user.take());
    existing.bot_id = prefer(bot_id, existing.bot_id.take());
    existing.username = prefer(username, existing.username.take());
    existing.bot_profile = prefer(bot_profile, existing.bot_profile.take());
    existing.icons = prefer(icons, existing.icons.take());
    existing.kind = prefer(kind, existing.kind.take());
    existing.subtype = prefer(subtype, existing.subtype.take());
    existing.client_msg_id = prefer(client_msg_id, existing.client_msg_id.take());
    existing.text = prefer(text, existing.text.take());
    existing.team = prefer(team, existing.team.take());
    existing.channel = prefer(channel, existing.channel.take());
    existing.thread_ts = prefer(thread_ts, existing.thread_ts.take());
    existing.parent_user_id = prefer(parent_user_id, existing.parent_user_id.take());
    existing.latest_reply = prefer(latest_reply, existing.latest_reply.take());
    existing.edited = prefer(edited, existing.edited.take());
    existing.message = prefer(message, existing.message.take());
    existing.reply_count = prefer(reply_count, existing.reply_count);
    existing.reply_users_count = prefer(reply_users_count, existing.reply_users_count);
    existing.reply_users = prefer_non_empty(reply_users, take_vec(&mut existing.reply_users));
    existing.reactions = prefer_non_empty(reactions, take_vec(&mut existing.reactions));
    existing.blocks = prefer_non_empty(blocks, take_vec(&mut existing.blocks));
    existing.files = prefer_non_empty(files, take_vec(&mut existing.files));
    existing.attachments = prefer_non_empty(attachments, take_vec(&mut existing.attachments));
    let mut old_extra: JsonMap = Vec::new();
    std::mem::swap(&mut old_extra, &mut existing.extra);
    existing.extra = extend_map(old_extra, extra);
}

/// Where the message with timestamp `ts` sits among `messages`, and the
/// last position: a view scrolls to the first over the second (to the top
/// when there is one message). `None` when no message has that timestamp.
pub fn scroll_position_for_ts(messages: &[Message], ts: &str) -> (r: Option<(usize, usize)>)
    ensures
        match r {
            Some((i, last)) => i == find_ts(messages@, ts@) && i < messages@.len() && last == messages@.len() - 1,
            None => find_ts(messages@, ts@) == messages@.len(),
        },
{
    let mut i: usize = 0;
    while i < messages.len()
        invariant
            i <= messages@.len(),
            forall|k: int| 0 <= k < i ==> msg_ts(#[trigger] messages@[k]) != Some(ts@),
        decreases messages.len() - i,
    {
        if crate::text::opt_eq_str(&messages[i].ts, ts) {
            proof {
                lemma_find_ts(messages@, ts@, i as int);
            }
            return Some((i, messages.len() - 1));
        }
        i = i + 1;
    }
    proof {
        lemma_find_ts(messages@, ts@, i as int);
    }
    None
}

} // verus!

//! The invariant every operation on a workspace keeps: each table holds at
//! most one entry per key, and the id lists hold no id twice.

use vstd::prelude::*;

use crate::keyed;
use crate::models::{Channel, ChannelModel, Emoji, Room, User};
use crate::state::{
    Workspace, cleared, counts_all, dm_all, dm_all_any, drop_empty_views, emojis_put, insert_all, meta_all,
    meta_step, counts_step, pruned_views, read_all, read_step, roomed, star_all, touched, tview, users_put,
    without_id, cview, mview,
};
use crate::timeline::TimelineModel;

verus! {

broadcast use vstd::string::group_string_axioms;

impl Workspace {
    /// Each table (channels, users, custom emoji, timelines, typing,
    /// presence, huddles) holds at most one entry per key, and the DM order,
    /// the recent channels, the VIPs and the hidden sections list no id twice.
    pub open spec fn wf(&self) -> bool {
        &&& keyed::unique_keys(self.channels@)
        &&& keyed::unique_keys(self.users@)
        &&& keyed::unique_keys(self.custom_emoji@)
        &&& keyed::unique_keys(self.messages@)
        &&& keyed::unique_keys(self.typing@)
        &&& keyed::unique_keys(self.presence@)
        &&& keyed::unique_keys(self.active_huddles@)
        &&& keyed::distinct_ids(self.dm_order@)
        &&& keyed::distinct_ids(self.recent_channels@)
        &&& keyed::distinct_ids(self.vip_users@)
        &&& keyed::distinct_ids(self.sidebar.hidden_sections@)
        &&& channels_by_id(self.channels@)
        &&& users_by_id(self.users@)
        &&& emoji_by_name(self.custom_emoji@)
    }
}

/// Each channel is stored under its own id.
pub open spec fn channels_by_id(t: Seq<(String, Channel)>) -> bool {
    forall|i: int| 0 <= i < t.len() ==> (#[trigger] t[i]).0@ == t[i].1.id@
}

/// Each user is stored under its own id.
pub open spec fn users_by_id(t: Seq<(String, User)>) -> bool {
    forall|i: int| 0 <= i < t.len() ==> (#[trigger] t[i]).0@ == t[i].1.id@
}

/// Each custom emoji is stored under its own name.
pub open spec fn emoji_by_name(t: Seq<(String, Emoji)>) -> bool {
    forall|i: int| 0 <= i < t.len() ==> (#[trigger] t[i]).0@ == t[i].1.name@
}

/// Each channel, as a plain value, is stored under its own id.
pub open spec fn models_by_id(cv: Seq<(Seq<char>, ChannelModel)>) -> bool {
    forall|i: int| 0 <= i < cv.len() ==> (#[trigger] cv[i]).0 == cv[i].1.id@
}

pub proof fn lemma_channels_by_id(t: Seq<(String, Channel)>)
    ensures
        channels_by_id(t) == models_by_id(cview(t)),
{
    let v = cview(t);
    assert forall|i: int| 0 <= i < t.len() implies (#[trigger] v[i]) == (t[i].0@, t[i].1@) by {}
    if channels_by_id(t) {
        assert forall|i: int| 0 <= i < v.len() implies (#[trigger] v[i]).0 == v[i].1.id@ by {
            assert(v[i] == (t[i].0@, t[i].1@));
        }
    }
    if models_by_id(v) {
        assert forall|i: int| 0 <= i < t.len() implies (#[trigger] t[i]).0@ == t[i].1.id@ by {
            assert(v[i] == (t[i].0@, t[i].1@));
        }
    }
}

/// Storing a channel under its own id keeps every channel under its id.
pub proof fn lemma_vput_by_id(cv: Seq<(Seq<char>, ChannelModel)>, k: Seq<char>, c: ChannelModel)
    requires
        models_by_id(cv),
        c.id@ == k,
    ensures
        models_by_id(keyed::vput(cv, k, c)),
{
    let t = keyed::vput(cv, k, c);
    keyed::lemma_pos_facts(cv, k);
    assert forall|i: int| 0 <= i < t.len() implies (#[trigger] t[i]).0 == t[i].1.id@ by {
        if i < cv.len() && !(keyed::vhas(cv, k) && i == keyed::pos(cv, k)) {
            assert(t[i] == cv[i]);
        }
    }
}

/// The stored channel found under `k` carries the id `k`.
pub proof fn lemma_vget_by_id(cv: Seq<(Seq<char>, ChannelModel)>, k: Seq<char>)
    requires
        models_by_id(cv),
    ensures
        keyed::vget(cv, k) matches Some(e) ==> e.id@ == k,
{
    keyed::lemma_pos_facts(cv, k);
}

pub proof fn lemma_insert_all_by_id(cv: Seq<(Seq<char>, ChannelModel)>, chans: Seq<Channel>)
    requires
        models_by_id(cv),
    ensures
        models_by_id(insert_all(cv, chans)),
    decreases chans.len(),
{
    if chans.len() > 0 {
        lemma_insert_all_by_id(cv, chans.drop_last());
        lemma_vput_by_id(insert_all(cv, chans.drop_last()), chans.last().id@, chans.last()@);
    }
}

pub proof fn lemma_star_all_by_id(cv: Seq<(Seq<char>, ChannelModel)>, ids: Seq<String>)
    requires
        models_by_id(cv),
    ensures
        models_by_id(star_all(cv, ids)),
    decreases ids.len(),
{
    if ids.len() > 0 {
        let prev = star_all(cv, ids.drop_last());
        lemma_star_all_by_id(cv, ids.drop_last());
        lemma_vget_by_id(prev, ids.last()@);
        match keyed::vget(prev, ids.last()@) {
            Some(e) => lemma_vput_by_id(prev, ids.last()@, ChannelModel { is_starred: true, ..e }),
            None => {},
        }
    }
}

pub proof fn lemma_meta_all_by_id(cv: Seq<(Seq<char>, ChannelModel)>, chans: Seq<Channel>)
    requires
        models_by_id(cv),
    ensures
        models_by_id(meta_all(cv, chans)),
    decreases chans.len(),
{
    if chans.len() > 0 {
        let prev = meta_all(cv, chans.drop_last());
        let c = chans.last()@;
        lemma_meta_all_by_id(cv, chans.drop_last());
        lemma_vget_by_id(prev, c.id@);
        match keyed::vget(prev, c.id@) {
            Some(e) => lemma_vput_by_id(prev, c.id@, crate::state::merged_metadata(e, c)),
            None => lemma_vput_by_id(prev, c.id@, c),
        }
        assert(meta_all(cv, chans) == meta_step(prev, c));
    }
}

pub proof fn lemma_counts_all_by_id(cv: Seq<(Seq<char>, ChannelModel)>, chans: Seq<Channel>)
    requires
        models_by_id(cv),
    ensures
        models_by_id(counts_all(cv, chans)),
    decreases chans.len(),
{
    if chans.len() > 0 {
        let prev = counts_all(cv, chans.drop_last());
        let c = chans.last()@;
        lemma_counts_all_by_id(cv, chans.drop_last());
        lemma_vget_by_id(prev, c.id@);
        match keyed::vget(prev, c.id@) {
            Some(e) => lemma_vput_by_id(prev, c.id@, crate::state::counts_merged(e, c)),
            None => lemma_vput_by_id(prev, c.id@, c),
        }
        assert(counts_all(cv, chans) == counts_step(prev, c));
    }
}

/// Storing a user under its own id keeps every user under its id.
pub proof fn lemma_put_user_by_id(t: Seq<(String, User)>, k: String, u: User)
    requires
        users_by_id(t),
        u.id@ == k@,
    ensures
        users_by_id(keyed::put(t, k, u)),
{
    let r = keyed::put(t, k, u);
    keyed::lemma_key_pos_facts(t, k@);
    assert forall|i: int| 0 <= i < r.len() implies (#[trigger] r[i]).0@ == r[i].1.id@ by {
        if i < t.len() && !(keyed::has_key(t, k@) && i == keyed::key_pos(t, k@)) {
            assert(r[i] == t[i]);
        }
    }
}

pub proof fn lemma_users_put_by_id(m: Seq<(String, User)>, users: Seq<User>)
    requires
        users_by_id(m),
    ensures
        users_by_id(users_put(m, users)),
    decreases users.len(),
{
    if users.len() > 0 {
        lemma_users_put_by_id(m, users.drop_last());
        lemma_put_user_by_id(users_put(m, users.drop_last()), users.last().id, users.last());
    }
}

pub proof fn lemma_emojis_put_by_name(m: Seq<(String, Emoji)>, emojis: Seq<Emoji>)
    requires
        emoji_by_name(m),
    ensures
        emoji_by_name(emojis_put(m, emojis)),
    decreases emojis.len(),
{
    if emojis.len() > 0 {
        let prev = emojis_put(m, emojis.drop_last());
        let e = emojis.last();
        lemma_emojis_put_by_name(m, emojis.drop_last());
        let r = keyed::put(prev, e.name, e);
        keyed::lemma_key_pos_facts(prev, e.name@);
        assert forall|i: int| 0 <= i < r.len() implies (#[trigger] r[i]).0@ == r[i].1.name@ by {
            if i < prev.len() && !(keyed::has_key(prev, e.name@) && i == keyed::key_pos(prev, e.name@)) {
                assert(r[i] == prev[i]);
            }
        }
    }
}

/// A channel table has unique keys exactly when its plain values have.
pub proof fn lemma_channels_unique(t: Seq<(String, Channel)>)
    ensures
        keyed::unique_keys(t) == keyed::vunique(cview(t)),
{
    keyed::lemma_unique_view(t, cview(t));
}

/// A timeline table has unique keys exactly when its plain values have.
pub proof fn lemma_messages_unique(t: Seq<(String, crate::timeline::ChannelMessages)>)
    ensures
        keyed::unique_keys(t) == keyed::vunique(mview(t)),
{
    keyed::lemma_unique_view(t, mview(t));
}

/// A typing table has unique keys exactly when its plain values have.
pub proof fn lemma_typing_unique(t: Seq<(String, Vec<(String, u64)>)>)
    ensures
        keyed::unique_keys(t) == keyed::vunique(tview(t)),
{
    keyed::lemma_unique_view(t, tview(t));
}

pub proof fn lemma_insert_all_unique(cv: Seq<(Seq<char>, ChannelModel)>, chans: Seq<Channel>)
    requires
        keyed::vunique(cv),
    ensures
        keyed::vunique(insert_all(cv, chans)),
    decreases chans.len(),
{
    if chans.len() > 0 {
        lemma_insert_all_unique(cv, chans.drop_last());
        keyed::lemma_vput_unique(insert_all(cv, chans.drop_last()), chans.last().id@, chans.last()@);
    }
}

pub proof fn lemma_star_all_unique(cv: Seq<(Seq<char>, ChannelModel)>, ids: Seq<String>)
    requires
        keyed::vunique(cv),
    ensures
        keyed::vunique(star_all(cv, ids)),
    decreases ids.len(),
{
    if ids.len() > 0 {
        let prev = star_all(cv, ids.drop_last());
        lemma_star_all_unique(cv, ids.drop_last());
        match keyed::vget(prev, ids.last()@) {
            Some(e) => keyed::lemma_vput_unique(prev, ids.last()@, ChannelModel { is_starred: true, ..e }),
            None => {},
        }
    }
}

pub proof fn lemma_meta_all_unique(cv: Seq<(Seq<char>, ChannelModel)>, chans: Seq<Channel>)
    requires
        keyed::vunique(cv),
    ensures
        keyed::vunique(meta_all(cv, chans)),
    decreases chans.len(),
{
    if chans.len() > 0 {
        let prev = meta_all(cv, chans.drop_last());
        let c = chans.last()@;
        lemma_meta_all_unique(cv, chans.drop_last());
        match keyed::vget(prev, c.id@) {
            Some(e) => keyed::lemma_vput_unique(prev, c.id@, crate::state::merged_metadata(e, c)),
            None => keyed::lemma_vput_unique(prev, c.id@, c),
        }
        assert(meta_all(cv, chans) == meta_step(prev, c));
    }
}

pub proof fn lemma_counts_all_unique(cv: Seq<(Seq<char>, ChannelModel)>, chans: Seq<Channel>)
    requires
        keyed::vunique(cv),
    ensures
        keyed::vunique(counts_all(cv, chans)),
    decreases chans.len(),
{
    if chans.len() > 0 {
        let prev = counts_all(cv, chans.drop_last());
        let c = chans.last()@;
        lemma_counts_all_unique(cv, chans.drop_last());
        match keyed::vget(prev, c.id@) {
            Some(e) => keyed::lemma_vput_unique(prev, c.id@, crate::state::counts_merged(e, c)),
            None => keyed::lemma_vput_unique(prev, c.id@, c),
        }
        assert(counts_all(cv, chans) == counts_step(prev, c));
    }
}

pub proof fn lemma_read_all_unique(mv: Seq<(Seq<char>, TimelineModel)>, chans: Seq<Channel>)
    requires
        keyed::vunique(mv),
    ensures
        keyed::vunique(read_all(mv, chans)),
    decreases chans.len(),
{
    if chans.len() > 0 {
        let prev = read_all(mv, chans.drop_last());
        let c = chans.last()@;
        lemma_read_all_unique(mv, chans.drop_last());
        keyed::lemma_vput_unique(prev, c.id@, crate::state::read_state(crate::state::timeline_of(prev, c.id@), c));
        assert(read_all(mv, chans) == read_step(prev, c));
    }
}

pub proof fn lemma_dm_all_distinct(dm: Seq<String>, chans: Seq<Channel>)
    requires
        keyed::distinct_ids(dm),
    ensures
        keyed::distinct_ids(dm_all(dm, chans)),
        keyed::distinct_ids(dm_all_any(dm, chans)),
    decreases chans.len(),
{
    if chans.len() > 0 {
        lemma_dm_all_distinct(dm, chans.drop_last());
        keyed::lemma_append_unique(dm_all(dm, chans.drop_last()), chans.last().id);
        keyed::lemma_append_unique(dm_all_any(dm, chans.drop_last()), chans.last().id);
    }
}

pub proof fn lemma_users_put_unique(m: Seq<(String, User)>, users: Seq<User>)
    requires
        keyed::unique_keys(m),
    ensures
        keyed::unique_keys(users_put(m, users)),
    decreases users.len(),
{
    if users.len() > 0 {
        lemma_users_put_unique(m, users.drop_last());
        keyed::lemma_put(users_put(m, users.drop_last()), users.last().id, users.last());
    }
}

pub proof fn lemma_emojis_put_unique(m: Seq<(String, Emoji)>, emojis: Seq<Emoji>)
    requires
        keyed::unique_keys(m),
    ensures
        keyed::unique_keys(emojis_put(m, emojis)),
    decreases emojis.len(),
{
    if emojis.len() > 0 {
        lemma_emojis_put_unique(m, emojis.drop_last());
        keyed::lemma_put(emojis_put(m, emojis.drop_last()), emojis.last().name, emojis.last());
    }
}

/// Is `k` the key of some entry of `t`?
pub open spec fn key_in<K, V>(t: Seq<(K, V)>, k: K) -> bool {
    exists|j: int| 0 <= j < t.len() && (#[trigger] t[j]).0 == k
}

/// Dropping the channels where nobody types keeps keys unique and adds none.
pub proof fn lemma_drop_empty_unique(t: Seq<(Seq<char>, Seq<(String, u64)>)>)
    requires
        keyed::vunique(t),
    ensures
        keyed::vunique(drop_empty_views(t)),
        forall|i: int| 0 <= i < drop_empty_views(t).len() ==> key_in(t, (#[trigger] drop_empty_views(t)[i]).0),
    decreases t.len(),
{
    if t.len() > 0 {
        let p = t.drop_last();
        assert forall|i: int, j: int| 0 <= i < j < p.len() implies (#[trigger] p[i]).0 != (#[trigger] p[j]).0 by {
            assert(p[i] == t[i] && p[j] == t[j]);
        }
        lemma_drop_empty_unique(p);
        let d = drop_empty_views(p);
        let r = drop_empty_views(t);
        assert forall|i: int| 0 <= i < d.len() implies key_in(t, (#[trigger] d[i]).0) by {
            let j = choose|j: int| 0 <= j < p.len() && (#[trigger] p[j]).0 == d[i].0;
            assert(t[j] == p[j]);
        }
        if t.last().1.len() != 0 {
            assert forall|i: int| 0 <= i < d.len() implies (#[trigger] d[i]).0 != t.last().0 by {
                let j = choose|j: int| 0 <= j < p.len() && (#[trigger] p[j]).0 == d[i].0;
                assert(t[j] == p[j]);
                assert(t[j].0 != t[t.len() - 1].0);
            }
            assert forall|i: int, j: int| 0 <= i < j < r.len() implies (#[trigger] r[i]).0 != (#[trigger] r[j]).0 by {
                assert(r[i] == d[i]);
                if j < d.len() {
                    assert(r[j] == d[j]);
                }
            }
            assert forall|i: int| 0 <= i < r.len() implies key_in(t, (#[trigger] r[i]).0) by {
                if i < d.len() {
                    assert(r[i] == d[i]);
                } else {
                    assert(t[t.len() - 1].0 == r[i].0);
                }
            }
        }
    }
}

/// Clearing a user from a channel keeps the typing table's keys unique.
pub proof fn lemma_cleared_unique(t: Seq<(String, Vec<(String, u64)>)>, channel: Seq<char>, user: Seq<char>)
    requires
        keyed::unique_keys(t),
    ensures
        keyed::vunique(drop_empty_views(cleared(t, channel, user))),
{
    lemma_typing_unique(t);
    let v = tview(t);
    let c = cleared(t, channel, user);
    assert forall|i: int, j: int| 0 <= i < j < c.len() implies (#[trigger] c[i]).0 != (#[trigger] c[j]).0 by {
        assert(c[i].0 == v[i].0 && c[j].0 == v[j].0);
    }
    lemma_drop_empty_unique(c);
}

/// Pruning stale indicators keeps the typing table's keys unique.
pub proof fn lemma_pruned_unique(t: Seq<(String, Vec<(String, u64)>)>, now: u64, ttl: u64)
    requires
        keyed::unique_keys(t),
    ensures
        keyed::vunique(drop_empty_views(pruned_views(t, now, ttl))),
{
    lemma_typing_unique(t);
    let v = tview(t);
    let c = pruned_views(t, now, ttl);
    assert forall|i: int, j: int| 0 <= i < j < c.len() implies (#[trigger] c[i]).0 != (#[trigger] c[j]).0 by {
        assert(c[i].0 == v[i].0 && c[j].0 == v[j].0);
    }
    lemma_drop_empty_unique(c);
}

/// Removing an id keeps the others distinct, lists none that was not there,
/// and leaves the removed id out.
pub proof fn lemma_without_id(ids: Seq<String>, id: Seq<char>)
    requires
        keyed::distinct_ids(ids),
    ensures
        keyed::distinct_ids(without_id(ids, id)),
        forall|i: int| 0 <= i < without_id(ids, id).len() ==> (#[trigger] without_id(ids, id)[i])@ != id
            && keyed::listed(ids, without_id(ids, id)[i]@),
    decreases ids.len(),
{
    if ids.len() > 0 {
        let p = ids.drop_last();
        assert forall|i: int, j: int| 0 <= i < j < p.len() implies (#[trigger] p[i])@ != (#[trigger] p[j])@ by {
            assert(p[i] == ids[i] && p[j] == ids[j]);
        }
        lemma_without_id(p, id);
        let w = without_id(p, id);
        let r = without_id(ids, id);
        assert forall|i: int| 0 <= i < w.len() implies keyed::listed(ids, (#[trigger] w[i])@) by {
            let j = choose|j: int| 0 <= j < p.len() && (#[trigger] p[j])@ == w[i]@;
            assert(ids[j] == p[j]);
        }
        if ids.last()@ != id {
            assert forall|i: int| 0 <= i < w.len() implies (#[trigger] w[i])@ != ids.last()@ by {
                let j = choose|j: int| 0 <= j < p.len() && (#[trigger] p[j])@ == w[i]@;
                assert(ids[j] == p[j]);
                assert(ids[j]@ != ids[ids.len() - 1]@);
            }
            assert forall|i: int, j: int| 0 <= i < j < r.len() implies (#[trigger] r[i])@ != (#[trigger] r[j])@ by {
                assert(r[i] == w[i]);
                if j < w.len() {
                    assert(r[j] == w[j]);
                }
            }
            assert forall|i: int| 0 <= i < r.len() implies (#[trigger] r[i])@ != id && keyed::listed(ids, r[i]@) by {
                if i < w.len() {
                    assert(r[i] == w[i]);
                } else {
                    assert(ids[ids.len() - 1]@ == r[i]@);
                }
            }
        }
    }
}

/// Visiting a channel keeps the recent list free of repeats.
pub proof fn lemma_touched_distinct(recent: Seq<String>, id: String)
    requires
        keyed::distinct_ids(recent),
    ensures
        keyed::distinct_ids(touched(recent, id)),
{
    lemma_without_id(recent, id@);
    let w = without_id(recent, id@);
    let s = seq![id] + w;
    assert forall|i: int, j: int| 0 <= i < j < s.len() implies (#[trigger] s[i])@ != (#[trigger] s[j])@ by {
        assert(s[j] == w[j - 1]);
        if i > 0 {
            assert(s[i] == w[i - 1]);
        }
    }
    let t = touched(recent, id);
    assert forall|i: int, j: int| 0 <= i < j < t.len() implies (#[trigger] t[i])@ != (#[trigger] t[j])@ by {
        assert(t[i] == s[i] && t[j] == s[j]);
    }
}

/// A huddle update keeps the huddle table's keys unique.
pub proof fn lemma_roomed_unique(h: Seq<(String, Room)>, room: Room)
    requires
        keyed::unique_keys(h),
    ensures
        keyed::unique_keys(roomed(h, room).0),
{
    if room.channels@.len() > 0 {
        let channel = room.channels@[0];
        keyed::lemma_del(h, channel@);
        keyed::lemma_put(h, channel, room);
    }
}

/// Words listed without repeats are distinct ids.
pub proof fn lemma_words_distinct(ids: Seq<String>)
    requires
        crate::models::strings_view(ids).no_duplicates(),
    ensures
        keyed::distinct_ids(ids),
{
    let v = crate::models::strings_view(ids);
    assert forall|i: int, j: int| 0 <= i < j < ids.len() implies (#[trigger] ids[i])@ != (#[trigger] ids[j])@ by {
        assert(v[i] == ids[i]@ && v[j] == ids[j]@);
    }
}

} // verus!

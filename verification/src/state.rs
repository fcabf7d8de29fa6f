//! The state of one signed-in workspace: channels, users, read state,
//! presence, typing indicators, huddles and the sidebar configuration.
//!
//! Maps of the workspace are string-keyed tables (see `keyed`); times of
//! typing indicators are nanoseconds on the caller's monotonic clock.

use vstd::prelude::*;

use crate::keyed;
use crate::labels;
use crate::models::{
    BootData, Channel, ChannelId, ChannelModel, ChannelSection, CountsPage, Emoji, JsonValue, JsonValueModel, Room,
    SidebarDmsPage, TeamId, User, UserId, map_model,
};
use crate::text;
use crate::wellformed;
use crate::timeline::{ChannelMessages, TimelineModel, empty_timeline};

verus! {

broadcast use vstd::string::group_string_axioms;

/// Seconds since the Unix epoch on the wall clock, 0 when it reads before
/// 1970 (the seconds are read as `i64`, wrapping as `as` does).
pub fn now_secs() -> i64 {
    let now = crate::clock::system_now();
    match crate::clock::since_epoch(&now) {
        Some(d) => {
            let s = crate::clock::whole_secs(&d);
            #[verifier::truncate]
            (s as i64)
        },
        None => 0,
    }
}

/// How many channels the recent list keeps.
pub const RECENT_CHANNELS_MAX: usize = 20;

#[derive(Debug, Clone, Copy, PartialEq, Eq, Structural)]
pub enum Screen {
    Login,
    Loading,
    Main,
}

#[derive(Debug, Clone, Copy, PartialEq, Eq, Structural, Default)]
pub enum MainView {
    #[default]
    Home,
    Unreads,
    Dms,
    Activity,
}

/// Identifies an open realtime connection.
pub type ConnectionId = u64;

#[derive(Debug, Clone, Default)]
pub enum RealtimeStatus {
    #[default]
    Disconnected,
    Connected(ConnectionId),
}

impl RealtimeStatus {
    pub fn is_connected(&self) -> (r: bool)
        ensures
            r == (*self is Connected),
    {
        match self {
            RealtimeStatus::Connected(_) => true,
            RealtimeStatus::Disconnected => false,
        }
    }
}

#[derive(Debug, Clone)]
pub struct Toast {
    pub text: String,
}

#[derive(Debug, Clone, Copy, PartialEq, Eq, Structural, Default)]
pub enum Presence {
    Active,
    Away,
    #[default]
    Unknown,
}

pub open spec fn presence_spec(value: Seq<char>) -> Presence {
    if value == "active"@ {
        Presence::Active
    } else if value == "away"@ {
        Presence::Away
    } else {
        Presence::Unknown
    }
}

impl Presence {
    /// Slack's presence words: "active", "away"; anything else is unknown.
    pub fn from_slack(value: &str) -> (r: Self)
        ensures
            r == presence_spec(value@),
    {
        if text::str_eq(value, "active") {
            Presence::Active
        } else if text::str_eq(value, "away") {
            Presence::Away
        } else {
            Presence::Unknown
        }
    }
}

/// What a sign-in stored for one workspace.
#[derive(Debug, Clone, Default)]
pub struct WorkspaceSession {
    pub team_id: TeamId,
    pub enterprise_id: Option<String>,
    pub user_id: UserId,
    pub name: String,
    pub url: String,
    pub token: String,
}

/// A user's preferences for one sidebar section.
#[derive(Debug, Clone, Default)]
pub struct SectionPref {
    pub sort: Option<String>,
    pub sidebar: Option<String>,
    pub c: Option<String>,
}

#[derive(Debug, Clone, Default)]
pub struct SidebarConfig {
    pub sections: Vec<ChannelSection>,
    /// Preferences by section id.
    pub section_prefs: Vec<(String, SectionPref)>,
    /// Ids of hidden sections, each once.
    pub hidden_sections: Vec<String>,
}

#[derive(Debug, Clone, Copy, PartialEq, Eq, Structural)]
pub enum SectionSort {
    Alpha,
    Recent,
    Priority,
}

#[derive(Debug, Clone)]
pub struct ResolvedSection {
    pub id: String,
    pub kind: String,
    pub title: String,
    pub sort: SectionSort,
    pub show_all: bool,
    pub channel_ids: Vec<ChannelId>,
}

/// One workspace's state.
#[derive(Debug, Clone)]
pub struct Workspace {
    pub team_id: TeamId,
    pub name: String,
    pub url: String,
    pub self_user_id: UserId,
    pub activity_unread_count: Option<u32>,
    /// Channels by id.
    pub channels: Vec<(ChannelId, Channel)>,
    pub starred_order: Vec<ChannelId>,
    pub dm_order: Vec<ChannelId>,
    pub recent_channels: Vec<ChannelId>,
    pub last_active_channel: Option<ChannelId>,
    pub hide_read_channels_unless_starred: bool,
    pub priority_sidebar_section: bool,
    /// Slack's priority score of each channel, by channel id, each score as
    /// an integer that orders as the score does.
    pub priority_ranks: Vec<(ChannelId, u64)>,
    /// The user's VIPs, each once.
    pub vip_users: Vec<UserId>,
    pub sidebar: SidebarConfig,
    /// Users by id.
    pub users: Vec<(UserId, User)>,
    /// Custom emoji by name.
    pub custom_emoji: Vec<(String, Emoji)>,
    /// Message timelines by channel id.
    pub messages: Vec<(ChannelId, ChannelMessages)>,
    /// Who is typing, by channel id: user and when the indicator arrived.
    pub typing: Vec<(ChannelId, Vec<(UserId, u64)>)>,
    /// Presence by user id.
    pub presence: Vec<(UserId, Presence)>,
    /// Active huddles keyed by channel id. A channel has at most one live huddle.
    pub active_huddles: Vec<(ChannelId, Room)>,
    pub rt: RealtimeStatus,
    pub rt_generation: u64,
}

// ---------------------------------------------------------------------------
// Models
// ---------------------------------------------------------------------------

/// `ids` without the entries equal to `id`.
pub open spec fn without_id(ids: Seq<String>, id: Seq<char>) -> Seq<String>
    decreases ids.len(),
{
    if ids.len() == 0 {
        Seq::empty()
    } else if ids.last()@ == id {
        without_id(ids.drop_last(), id)
    } else {
        without_id(ids.drop_last(), id).push(ids.last())
    }
}

/// The recent list after visiting `id`: it moves to the front, the list is
/// capped.
pub open spec fn touched(recent: Seq<String>, id: String) -> Seq<String> {
    let s = seq![id] + without_id(recent, id@);
    if s.len() > RECENT_CHANNELS_MAX {
        s.take(RECENT_CHANNELS_MAX as int)
    } else {
        s
    }
}

/// Typing entries without those of `user`.
pub open spec fn without_user(entries: Seq<(String, u64)>, user: Seq<char>) -> Seq<(String, u64)>
    decreases entries.len(),
{
    if entries.len() == 0 {
        Seq::empty()
    } else if entries.last().0@ == user {
        without_user(entries.drop_last(), user)
    } else {
        without_user(entries.drop_last(), user).push(entries.last())
    }
}

/// Typing entries seen less than `ttl` before `now`.
pub open spec fn fresh_entries(entries: Seq<(String, u64)>, now: u64, ttl: u64) -> Seq<(String, u64)>
    decreases entries.len(),
{
    if entries.len() == 0 {
        Seq::empty()
    } else if elapsed(now, entries.last().1) < ttl {
        fresh_entries(entries.drop_last(), now, ttl).push(entries.last())
    } else {
        fresh_entries(entries.drop_last(), now, ttl)
    }
}

/// Time from `seen` to `now`, zero when `seen` is later.
pub open spec fn elapsed(now: u64, seen: u64) -> u64 {
    if now >= seen {
        (now - seen) as u64
    } else {
        0
    }
}

/// Each channel's entries seen less than `ttl` before `now`.
pub open spec fn pruned_views(t: Seq<(String, Vec<(String, u64)>)>, now: u64, ttl: u64) -> Seq<(Seq<char>, Seq<(String, u64)>)> {
    t.map_values(|e: (String, Vec<(String, u64)>)| (e.0@, fresh_entries(e.1@, now, ttl)))
}

/// A typing table as plain values.
pub open spec fn tview(t: Seq<(String, Vec<(String, u64)>)>) -> Seq<(Seq<char>, Seq<(String, u64)>)> {
    t.map_values(|e: (String, Vec<(String, u64)>)| (e.0@, e.1@))
}

/// Drops the channels with no entry left.
pub open spec fn drop_empty_views(t: Seq<(Seq<char>, Seq<(String, u64)>)>) -> Seq<(Seq<char>, Seq<(String, u64)>)>
    decreases t.len(),
{
    if t.len() == 0 {
        Seq::empty()
    } else if t.last().1.len() == 0 {
        drop_empty_views(t.drop_last())
    } else {
        drop_empty_views(t.drop_last()).push(t.last())
    }
}

/// The typing entries of a channel.
pub open spec fn typing_of(t: Seq<(String, Vec<(String, u64)>)>, channel: Seq<char>) -> Seq<(String, u64)> {
    match keyed::get(t, channel) {
        Some(v) => v@,
        None => Seq::empty(),
    }
}

/// The huddle table after a room update, and whether it changed.
pub open spec fn roomed(h: Seq<(String, Room)>, room: Room) -> (Seq<(String, Room)>, bool) {
    if room.channels@.len() == 0 {
        (h, false)
    } else {
        let channel = room.channels@[0];
        if room.has_ended || room.participants@.len() == 0 {
            match keyed::get(h, channel@) {
                Some(existing) => if existing.id@ == room.id@ {
                    (keyed::del(h, channel@), true)
                } else {
                    (h, false)
                },
                None => (h, false),
            }
        } else {
            (keyed::put(h, channel, room), true)
        }
    }
}

/// Presence of the person on the other side of a DM.
pub open spec fn presence_for_channel_spec(p: Seq<(String, Presence)>, c: Channel) -> Presence {
    if !(c.is_im || c.is_mpim) {
        Presence::Unknown
    } else {
        match labels::dm_user_id_spec(c) {
            Some(u) => match keyed::get(p, u) {
                Some(x) => x,
                None => Presence::Unknown,
            },
            None => Presence::Unknown,
        }
    }
}

/// Whether `name` reads as a custom emoji alias, and its target.
pub open spec fn alias_target(value: Seq<char>) -> Option<Seq<char>> {
    if text::starts_with(value, "alias:"@) {
        Some(value.skip(6))
    } else {
        None
    }
}

/// Follows aliases from `name`, at most `fuel` steps, never through a
/// name seen before; ends at a browser URL.
pub open spec fn emoji_url_from(m: Seq<(String, Emoji)>, name: Seq<char>, seen: Seq<Seq<char>>, fuel: nat) -> Option<Seq<char>>
    decreases fuel,
{
    if fuel == 0 || seen.contains(name) {
        None
    } else {
        match keyed::get(m, name) {
            None => None,
            Some(e) => match alias_target(e.value@) {
                Some(target) => emoji_url_from(m, target, seen.push(name), (fuel - 1) as nat),
                None => if crate::urls::is_browser_url_spec(e.value@) {
                    Some(e.value@)
                } else {
                    None
                },
            },
        }
    }
}

/// The image URL of custom emoji `name`, through its aliases; `None` for an
/// unknown name, a cycle of aliases, or a value that is no http(s) URL.
pub open spec fn custom_emoji_url_spec(m: Seq<(String, Emoji)>, name: Seq<char>) -> Option<Seq<char>> {
    emoji_url_from(m, name, Seq::empty(), m.len() + 1)
}

// ---------------------------------------------------------------------------
// Lemmas
// ---------------------------------------------------------------------------

proof fn lemma_has_key_at<V>(s: Seq<(String, V)>, k: Seq<char>, j: int)
    requires
        0 <= j < s.len(),
        s[j].0@ == k,
    ensures
        keyed::has_key(s, k),
        keyed::key_pos(s, k) <= j,
{
    keyed::lemma_key_pos_facts(s, k);
}

/// Removing one key keeps every other key.
proof fn lemma_del_keeps_other<V>(s: Seq<(String, V)>, x: Seq<char>, y: Seq<char>)
    requires
        x != y,
        keyed::has_key(s, y),
    ensures
        keyed::has_key(keyed::del(s, x), y),
{
    keyed::lemma_key_pos_facts(s, x);
    keyed::lemma_key_pos_facts(s, y);
    let t = keyed::del(s, x);
    let q = keyed::key_pos(s, y) as int;
    if keyed::has_key(s, x) {
        let p = keyed::key_pos(s, x) as int;
        assert(q != p);
        let tq = if q < p { q } else { q - 1 };
        assert(t[tq] == s[q]);
        lemma_has_key_at(t, y, tq);
    } else {
        lemma_has_key_at(t, y, q);
    }
}

/// Distinct names that are all keys of `m` are at most as many as its entries.
proof fn lemma_distinct_keys_bound<V>(m: Seq<(String, V)>, names: Seq<Seq<char>>)
    requires
        names.no_duplicates(),
        forall|i: int| 0 <= i < names.len() ==> keyed::has_key(m, #[trigger] names[i]),
    ensures
        names.len() <= m.len(),
    decreases names.len(),
{
    if names.len() > 0 {
        let x = names.last();
        let rest = names.drop_last();
        let m2 = keyed::del(m, x);
        assert forall|i: int| 0 <= i < rest.len() implies keyed::has_key(m2, #[trigger] rest[i]) by {
            assert(rest[i] == names[i]);
            assert(names[i] != names[names.len() - 1]);
            lemma_del_keeps_other(m, x, rest[i]);
        }
        assert(rest.no_duplicates()) by {
            assert forall|i: int, j: int| 0 <= i < rest.len() && 0 <= j < rest.len() && i != j implies rest[i] != rest[j] by {
                assert(rest[i] == names[i]);
                assert(rest[j] == names[j]);
            }
        }
        lemma_distinct_keys_bound(m2, rest);
        assert(keyed::has_key(m, x));
    }
}

// ---------------------------------------------------------------------------
// Operations
// ---------------------------------------------------------------------------

/// Typing entries without those of `user`.
fn drop_user(entries: &Vec<(UserId, u64)>, user: &str) -> (r: Vec<(UserId, u64)>)
    ensures
        r@ == without_user(entries@, user@),
{
    let mut out: Vec<(UserId, u64)> = Vec::new();
    for i in 0..entries.len()
        invariant
            out@ == without_user(entries@.take(i as int), user@),
    {
        assert(entries@.take(i + 1).drop_last() =~= entries@.take(i as int));
        if !text::str_eq(entries[i].0.as_str(), user) {
            out.push((entries[i].0.clone(), entries[i].1));
        }
    }
    assert(entries@.take(entries.len() as int) =~= entries@);
    out
}

/// Typing entries seen less than `ttl` before `now`.
fn keep_fresh(entries: &Vec<(UserId, u64)>, now: u64, ttl: u64) -> (r: Vec<(UserId, u64)>)
    ensures
        r@ == fresh_entries(entries@, now, ttl),
{
    let mut out: Vec<(UserId, u64)> = Vec::new();
    for i in 0..entries.len()
        invariant
            out@ == fresh_entries(entries@.take(i as int), now, ttl),
    {
        assert(entries@.take(i + 1).drop_last() =~= entries@.take(i as int));
        let seen = entries[i].1;
        let age = if now >= seen { now - seen } else { 0 };
        if age < ttl {
            out.push((entries[i].0.clone(), entries[i].1));
        }
    }
    assert(entries@.take(entries.len() as int) =~= entries@);
    out
}

/// The typing table without channels where nobody types.
fn without_empty(t: Vec<(ChannelId, Vec<(UserId, u64)>)>) -> (r: Vec<(ChannelId, Vec<(UserId, u64)>)>)
    ensures
        tview(r@) == drop_empty_views(tview(t@)),
{
    let mut t = t;
    let mut out: Vec<(ChannelId, Vec<(UserId, u64)>)> = Vec::new();
    let n0 = t.len();
    let ghost all = t@;
    let mut taken: usize = 0;
    while t.len() > 0
        invariant
            taken + t@.len() == all.len(),
            all.len() <= usize::MAX,
            t@ == all.skip(taken as int),
            tview(out@) == drop_empty_views(tview(all.take(taken as int))),
        decreases t.len(),
    {
        let e = t.remove(0);
        assert(all.take(taken + 1).drop_last() =~= all.take(taken as int));
        assert(tview(all.take(taken + 1)).drop_last() =~= tview(all.take(taken as int)));
        assert(e == all[taken as int]);
        assert(t@ =~= all.skip(taken + 1));
        if e.1.len() > 0 {
            let ghost before = out@;
            out.push(e);
            assert(tview(out@) =~= tview(before).push((e.0@, e.1@)));
        }
        taken = taken + 1;
    }
    assert(all.take(all.len() as int) =~= all);
    out
}

/// The texts of string slices.
pub open spec fn strs_view(s: Seq<&str>) -> Seq<Seq<char>> {
    s.map_values(|x: &str| x@)
}

/// Was `x` seen already?
fn seen_contains(seen: &Vec<&str>, x: &str) -> (r: bool)
    ensures
        r == strs_view(seen@).contains(x@),
{
    let ghost sv = strs_view(seen@);
    let mut k: usize = 0;
    while k < seen.len()
        invariant
            k <= seen@.len(),
            sv == strs_view(seen@),
            forall|j: int| 0 <= j < k ==> (#[trigger] seen@[j])@ != x@,
        decreases seen.len() - k,
    {
        if text::str_eq(seen[k], x) {
            assert(sv[k as int] == x@);
            return true;
        }
        k = k + 1;
    }
    assert(!sv.contains(x@)) by {
        if sv.contains(x@) {
            let j = choose|j: int| 0 <= j < sv.len() && sv[j] == x@;
            assert(seen@[j]@ == x@);
        }
    }
    false
}

impl Workspace {
    /// A workspace right after sign-in: only the session's identity is known.
    pub fn from_session(s: &WorkspaceSession) -> (ws: Self)
        ensures
            ws.team_id == s.team_id,
            ws.name == s.name,
            ws.url == s.url,
            ws.self_user_id == s.user_id,
            ws.activity_unread_count is None,
            ws.channels@.len() == 0,
            ws.starred_order@.len() == 0,
            ws.dm_order@.len() == 0,
            ws.recent_channels@.len() == 0,
            ws.last_active_channel is None,
            !ws.hide_read_channels_unless_starred,
            !ws.priority_sidebar_section,
            ws.priority_ranks@.len() == 0,
            ws.vip_users@.len() == 0,
            ws.sidebar.sections@.len() == 0,
            ws.sidebar.section_prefs@.len() == 0,
            ws.sidebar.hidden_sections@.len() == 0,
            ws.users@.len() == 0,
            ws.custom_emoji@.len() == 0,
            ws.messages@.len() == 0,
            ws.typing@.len() == 0,
            ws.presence@.len() == 0,
            ws.active_huddles@.len() == 0,
            ws.rt is Disconnected,
            ws.rt_generation == 0,
            ws.wf(),
    {
        Workspace {
            team_id: s.team_id.clone(),
            name: s.name.clone(),
            url: s.url.clone(),
            self_user_id: s.user_id.clone(),
            activity_unread_count: None,
            channels: Vec::new(),
            starred_order: Vec::new(),
            dm_order: Vec::new(),
            recent_channels: Vec::new(),
            last_active_channel: None,
            hide_read_channels_unless_starred: false,
            priority_sidebar_section: false,
            priority_ranks: Vec::new(),
            vip_users: Vec::new(),
            sidebar: SidebarConfig { sections: Vec::new(), section_prefs: Vec::new(), hidden_sections: Vec::new() },
            users: Vec::new(),
            custom_emoji: Vec::new(),
            messages: Vec::new(),
            typing: Vec::new(),
            presence: Vec::new(),
            active_huddles: Vec::new(),
            rt: RealtimeStatus::Disconnected,
            rt_generation: 0,
        }
    }

    /// Adopts the sidebar sections Slack reports.
    pub fn apply_channel_sections(&mut self, page: crate::models::ChannelSectionsPage)
        ensures
            final(self).sidebar.sections == page.channel_sections,
            *final(self) == (Workspace { sidebar: final(self).sidebar, ..*old(self) }),
            final(self).sidebar == (SidebarConfig { sections: page.channel_sections, ..old(self).sidebar }),
            old(self).wf() ==> final(self).wf(),
    {
        self.sidebar.sections = page.channel_sections;
    }

    /// The display name of a user, falling back to the id.
    pub fn display_name(&self, user_id: &str) -> (r: String)
        ensures
            r@ == labels::display_name_spec(keyed::get(self.users@, user_id@), user_id@),
    {
        labels::display_name(keyed::get_ref(&self.users, user_id), user_id)
    }

    /// A user's avatar URL.
    pub fn avatar_url(&self, user_id: &str) -> (r: Option<String>)
        ensures
            text::string_opt(r) == match keyed::get(self.users@, user_id@) {
                Some(u) => match u.profile {
                    Some(p) => labels::first_ne(labels::avatar_candidates(p)),
                    None => None,
                },
                None => None,
            },
    {
        match keyed::get_ref(&self.users, user_id) {
            Some(u) => match labels::user_avatar_url(u) {
                Some(url) => Some(text::owned(url)),
                None => None,
            },
            None => None,
        }
    }

    /// Records the custom emoji of the workspace by name.
    pub fn apply_emojis(&mut self, emojis: Vec<Emoji>)
        ensures
            final(self).custom_emoji@ == emojis_put(old(self).custom_emoji@, emojis@),
            *final(self) == (Workspace { custom_emoji: final(self).custom_emoji, ..*old(self) }),
            old(self).wf() ==> final(self).wf(),
    {
        let mut emojis = emojis;
        let n0 = emojis.len();
        let ghost all = emojis@;
        let mut taken: usize = 0;
        while emojis.len() > 0
            invariant
                taken + emojis@.len() == all.len(),
                all.len() <= usize::MAX,
                emojis@ == all.skip(taken as int),
                self.custom_emoji@ == emojis_put(old(self).custom_emoji@, all.take(taken as int)),
                *self == (Workspace { custom_emoji: self.custom_emoji, ..*old(self) }),
            decreases emojis.len(),
        {
            let e = emojis.remove(0);
            assert(all.take(taken + 1).drop_last() =~= all.take(taken as int));
            assert(e == all[taken as int]);
            assert(emojis@ =~= all.skip(taken + 1));
            let name = e.name.clone();
            keyed::insert(&mut self.custom_emoji, name, e);
            taken = taken + 1;
        }
        assert(all.take(all.len() as int) =~= all);
        proof {
            if old(self).wf() {
                wellformed::lemma_emojis_put_unique(old(self).custom_emoji@, all);
                wellformed::lemma_emojis_put_by_name(old(self).custom_emoji@, all);
            }
        }
    }

    /// The image URL of a custom emoji, following `alias:` values.
    pub fn custom_emoji_url(&self, name: &str) -> (r: Option<&str>)
        ensures
            text::str_opt(r) == custom_emoji_url_spec(self.custom_emoji@, name@),
    {
        let m = &self.custom_emoji;
        let mut current: &str = name;
        let mut seen: Vec<&str> = Vec::new();
        let ghost mut fuel: nat = (m@.len() + 1) as nat;
        assert(strs_view(seen@) =~= Seq::<Seq<char>>::empty());
        loop
            invariant
                m@ == self.custom_emoji@,
                custom_emoji_url_spec(m@, name@) == emoji_url_from(m@, current@, strs_view(seen@), fuel),
                seen@.len() + fuel == m@.len() + 1,
                strs_view(seen@).no_duplicates(),
                forall|i: int| 0 <= i < seen@.len() ==> keyed::has_key(m@, #[trigger] seen@[i]@),
            decreases fuel,
        {
            let ghost sv = strs_view(seen@);
            proof {
                lemma_distinct_keys_bound(m@, sv);
                assert(fuel > 0);
            }
            let found = seen_contains(&seen, current);
            if found {
                return None;
            }
            let e = match keyed::get_ref(m, current) {
                Some(e) => e,
                None => {
                    return None;
                },
            };
            proof {
                reveal_strlit("alias:");
            }
            if text::str_starts_with(e.value.as_str(), "alias:") {
                let v = e.value.as_str();
                let target = text::substring_from(v, 6);
                proof {
                    assert(sv.push(current@) =~= strs_view(seen@.push(current)));
                    assert forall|i: int| 0 <= i < seen@.len() + 1 implies keyed::has_key(m@, #[trigger] seen@.push(current)[i]@) by {
                        if i < seen@.len() {
                            assert(seen@.push(current)[i] == seen@[i]);
                        }
                    }
                    assert(sv.push(current@).no_duplicates()) by {
                        assert forall|i: int, j: int| 0 <= i < sv.len() + 1 && 0 <= j < sv.len() + 1 && i != j implies sv.push(current@)[i] != sv.push(current@)[j] by {
                            if i < sv.len() && j < sv.len() {
                            } else if i < sv.len() {
                                assert(sv[i] != current@);
                            } else {
                                assert(sv[j] != current@);
                            }
                        }
                    }
                    fuel = (fuel - 1) as nat;
                }
                seen.push(current);
                current = target;
            } else {
                if crate::urls::is_browser_url(e.value.as_str()) {
                    return Some(e.value.as_str());
                } else {
                    return None;
                }
            }
        }
    }
}


impl Workspace {
    /// Moves `id` to the front of the recent channels, keeping the list short.
    pub fn touch_recent(&mut self, id: &ChannelId)
        ensures
            final(self).recent_channels@ == touched(old(self).recent_channels@, *id),
            *final(self) == (Workspace { recent_channels: final(self).recent_channels, ..*old(self) }),
            old(self).wf() ==> final(self).wf(),
    {
        let mut kept: Vec<ChannelId> = Vec::new();
        kept.push(id.clone());
        for i in 0..self.recent_channels.len()
            invariant
                kept@ == seq![*id] + without_id(self.recent_channels@.take(i as int), id@),
        {
            assert(self.recent_channels@.take(i + 1).drop_last() =~= self.recent_channels@.take(i as int));
            if !text::str_eq(self.recent_channels[i].as_str(), id.as_str()) {
                kept.push(self.recent_channels[i].clone());
            }
        }
        assert(self.recent_channels@.take(self.recent_channels.len() as int) =~= self.recent_channels@);
        kept.truncate(RECENT_CHANNELS_MAX);
        self.recent_channels = kept;
        proof {
            if old(self).wf() {
                wellformed::lemma_touched_distinct(old(self).recent_channels@, *id);
            }
        }
    }

    /// Records that `user` is typing in `channel`; one's own typing is ignored.
    pub fn set_typing(&mut self, channel: &str, user: UserId, now: u64)
        ensures
            user@ == old(self).self_user_id@ ==> *final(self) == *old(self),
            user@ != old(self).self_user_id@ ==> {
                &&& keyed::has_key(final(self).typing@, channel@)
                &&& typing_of(final(self).typing@, channel@) == without_user(typing_of(old(self).typing@, channel@), user@).push((user, now))
                &&& forall|c: Seq<char>| c != channel@ ==> keyed::get(#[trigger] final(self).typing@, c) == keyed::get(old(self).typing@, c)
                &&& *final(self) == (Workspace { typing: final(self).typing, ..*old(self) })
            },
            old(self).wf() ==> final(self).wf(),
    {
        if text::str_eq(user.as_str(), self.self_user_id.as_str()) {
            return;
        }
        let mut entries = match keyed::get_ref(&self.typing, channel) {
            Some(e) => drop_user(e, user.as_str()),
            None => {
                assert(without_user(Seq::<(String, u64)>::empty(), user@) =~= Seq::<(String, u64)>::empty());
                Vec::new()
            },
        };
        entries.push((user, now));
        let ghost before = self.typing@;
        let key = text::owned(channel);
        keyed::insert(&mut self.typing, key, entries);
        proof {
            keyed::lemma_put(before, key, entries);
        }
    }

    /// Forgets that `user` types in `channel`; channels where nobody types
    /// any more are dropped.
    pub fn clear_typing_user(&mut self, channel: &str, user: &str)
        ensures
            tview(final(self).typing@) == drop_empty_views(cleared(old(self).typing@, channel@, user@)),
            *final(self) == (Workspace { typing: final(self).typing, ..*old(self) }),
            old(self).wf() ==> final(self).wf(),
    {
        match keyed::find(&self.typing, channel) {
            Some(i) => {
                let kept = drop_user(&self.typing[i].1, user);
                let key = self.typing[i].0.clone();
                self.typing.set(i, (key, kept));
                assert(tview(self.typing@) =~= cleared(old(self).typing@, channel@, user@));
            },
            None => {
                assert(tview(self.typing@) =~= cleared(old(self).typing@, channel@, user@));
            },
        }
        let mut t: Vec<(ChannelId, Vec<(UserId, u64)>)> = Vec::new();
        std::mem::swap(&mut t, &mut self.typing);
        self.typing = without_empty(t);
        proof {
            if old(self).wf() {
                wellformed::lemma_cleared_unique(old(self).typing@, channel@, user@);
                wellformed::lemma_typing_unique(self.typing@);
            }
        }
    }

    /// Drops typing indicators seen `ttl` or longer before `now`; returns
    /// whether any was dropped.
    pub fn prune_typing(&mut self, now: u64, ttl: u64) -> (changed: bool)
        ensures
            tview(final(self).typing@) == drop_empty_views(pruned_views(old(self).typing@, now, ttl)),
            changed == exists|i: int| 0 <= i < old(self).typing@.len()
                && fresh_entries((#[trigger] old(self).typing@[i]).1@, now, ttl).len() != old(self).typing@[i].1@.len(),
            *final(self) == (Workspace { typing: final(self).typing, ..*old(self) }),
            old(self).wf() ==> final(self).wf(),
    {
        let ghost orig = self.typing@;
        let mut changed = false;
        let mut out: Vec<(ChannelId, Vec<(UserId, u64)>)> = Vec::new();
        for i in 0..self.typing.len()
            invariant
                orig == self.typing@,
                tview(out@) == pruned_views(orig.take(i as int), now, ttl),
                changed == exists|j: int| 0 <= j < i
                    && fresh_entries((#[trigger] orig[j]).1@, now, ttl).len() != orig[j].1@.len(),
        {
            assert(orig.take(i + 1).drop_last() =~= orig.take(i as int));
            let kept = keep_fresh(&self.typing[i].1, now, ttl);
            if kept.len() != self.typing[i].1.len() {
                changed = true;
            }
            let ghost before = out@;
            let key = self.typing[i].0.clone();
            let ghost kv = kept@;
            out.push((key, kept));
            assert(tview(out@) =~= tview(before).push((key@, kv)));
            assert(pruned_views(orig.take(i + 1), now, ttl) =~= pruned_views(orig.take(i as int), now, ttl).push(
                (orig[i as int].0@, fresh_entries(orig[i as int].1@, now, ttl)),
            ));
        }
        assert(orig.take(orig.len() as int) =~= orig);
        self.typing = without_empty(out);
        proof {
            if old(self).wf() {
                wellformed::lemma_pruned_unique(orig, now, ttl);
                wellformed::lemma_typing_unique(self.typing@);
            }
        }
        changed
    }

    /// Display names of the people typing in `channel`, oneself excluded.
    pub fn typing_names(&self, channel: &str) -> (r: Vec<String>)
        ensures
            r@.map_values(|n: String| n@) == typing_names_spec(self.users@, self.self_user_id@, typing_of(self.typing@, channel@)),
    {
        let empty: Vec<(UserId, u64)> = Vec::new();
        let entries = match keyed::get_ref(&self.typing, channel) {
            Some(e) => e,
            None => &empty,
        };
        let ghost es = entries@;
        assert(es == typing_of(self.typing@, channel@));
        let mut out: Vec<String> = Vec::new();
        for i in 0..entries.len()
            invariant
                es == entries@,
                out@.map_values(|n: String| n@) == typing_names_spec(self.users@, self.self_user_id@, es.take(i as int)),
        {
            assert(es.take(i + 1).drop_last() =~= es.take(i as int));
            if !text::str_eq(entries[i].0.as_str(), self.self_user_id.as_str()) {
                let n = self.display_name(entries[i].0.as_str());
                let ghost before = out@.map_values(|n: String| n@);
                out.push(n);
                assert(out@.map_values(|n: String| n@) =~= before.push(n@));
            }
        }
        assert(es.take(es.len() as int) =~= es);
        out
    }

    /// Records a user's presence; an empty user id is ignored.
    pub fn set_presence(&mut self, user: UserId, presence: Presence)
        ensures
            user@.len() == 0 ==> *final(self) == *old(self),
            user@.len() > 0 ==> final(self).presence@ == keyed::put(old(self).presence@, user, presence),
            *final(self) == (Workspace { presence: final(self).presence, ..*old(self) }),
            old(self).wf() ==> final(self).wf(),
    {
        if user.as_str().is_empty() {
            return;
        }
        proof {
            keyed::lemma_put(self.presence@, user, presence);
        }
        keyed::insert(&mut self.presence, user, presence);
    }

    /// Applies a huddle room update: ended or empty rooms are dropped when
    /// they are the tracked room of their channel, active ones are stored
    /// under their channel. Returns whether the set of huddles changed.
    pub fn apply_room(&mut self, room: Room) -> (changed: bool)
        ensures
            final(self).active_huddles@ == roomed(old(self).active_huddles@, room).0,
            changed == roomed(old(self).active_huddles@, room).1,
            *final(self) == (Workspace { active_huddles: final(self).active_huddles, ..*old(self) }),
            old(self).wf() ==> final(self).wf(),
    {
        proof {
            if old(self).wf() {
                wellformed::lemma_roomed_unique(self.active_huddles@, room);
            }
        }
        let channel = match room.channel() {
            Some(c) => c.clone(),
            None => return false,
        };
        if !room.is_active() || room.participants.len() == 0 {
            let is_current = match keyed::get_ref(&self.active_huddles, channel.as_str()) {
                Some(existing) => text::str_eq(existing.id.as_str(), room.id.as_str()),
                None => false,
            };
            if is_current {
                let _ = keyed::remove(&mut self.active_huddles, channel.as_str());
            }
            return is_current;
        }
        keyed::insert(&mut self.active_huddles, channel, room);
        true
    }

    /// The live huddle of a channel.
    pub fn active_huddle(&self, channel: &str) -> (r: Option<&Room>)
        ensures
            match r {
                Some(room) => keyed::get(self.active_huddles@, channel@) == Some(*room),
                None => keyed::get(self.active_huddles@, channel@) is None,
            },
    {
        keyed::get_ref(&self.active_huddles, channel)
    }

    /// Presence of the other person of a DM; unknown for other channels.
    pub fn presence_for_channel(&self, channel: &Channel) -> (r: Presence)
        ensures
            r == presence_for_channel_spec(self.presence@, *channel),
    {
        if !(channel.is_im || channel.is_mpim) {
            return Presence::Unknown;
        }
        match labels::dm_user_id(channel) {
            Some(user) => match keyed::get_ref(&self.presence, user) {
                Some(p) => *p,
                None => Presence::Unknown,
            },
            None => Presence::Unknown,
        }
    }

    /// Read channels are listed unless Slack is told to hide them.
    pub fn should_show_unstarred_read_channels(&self) -> (r: bool)
        ensures
            r == !self.hide_read_channels_unless_starred,
    {
        !self.hide_read_channels_unless_starred
    }
}

/// The typing table, as plain values, with `user` removed from `channel`'s entries.
pub open spec fn cleared(t: Seq<(String, Vec<(String, u64)>)>, channel: Seq<char>, user: Seq<char>) -> Seq<(Seq<char>, Seq<(String, u64)>)> {
    let v = tview(t);
    if keyed::has_key(t, channel) {
        let i = keyed::key_pos(t, channel) as int;
        v.update(i, (v[i].0, without_user(v[i].1, user)))
    } else {
        v
    }
}

/// The names shown for typing entries.
pub open spec fn typing_names_spec(users: Seq<(String, User)>, self_id: Seq<char>, entries: Seq<(String, u64)>) -> Seq<Seq<char>>
    decreases entries.len(),
{
    if entries.len() == 0 {
        Seq::empty()
    } else {
        let prev = typing_names_spec(users, self_id, entries.drop_last());
        let u = entries.last().0@;
        if u == self_id {
            prev
        } else {
            prev.push(labels::display_name_spec(keyed::get(users, u), u))
        }
    }
}

/// The emoji table after storing each emoji of `emojis` under its name.
pub open spec fn emojis_put(m: Seq<(String, Emoji)>, emojis: Seq<Emoji>) -> Seq<(String, Emoji)>
    decreases emojis.len(),
{
    if emojis.len() == 0 {
        m
    } else {
        keyed::put(emojis_put(m, emojis.drop_last()), emojis.last().name, emojis.last())
    }
}


// ---------------------------------------------------------------------------
// Channels and read state
// ---------------------------------------------------------------------------

/// The channel table as plain values.
pub open spec fn cview(t: Seq<(String, Channel)>) -> Seq<(Seq<char>, ChannelModel)> {
    t.map_values(|e: (String, Channel)| (e.0@, e.1@))
}

/// The timeline table as plain values.
pub open spec fn mview(t: Seq<(String, ChannelMessages)>) -> Seq<(Seq<char>, TimelineModel)> {
    t.map_values(|e: (String, ChannelMessages)| (e.0@, e.1@))
}

pub open spec fn or_opt<T>(a: Option<T>, b: Option<T>) -> Option<T> {
    if a is Some {
        a
    } else {
        b
    }
}

/// `Option::max`: `None` is below every value.
pub open spec fn opt_max(a: Option<u64>, b: Option<u64>) -> Option<u64> {
    match (a, b) {
        (Some(x), Some(y)) => Some(if x >= y { x } else { y }),
        (Some(x), None) => Some(x),
        (None, _) => b,
    }
}

/// A timeline's read state after Slack reports a channel's counters: the
/// reported values win, and a channel marked unread shows at least one
/// unread message.
pub open spec fn read_state(cm: TimelineModel, c: ChannelModel) -> TimelineModel {
    let cm1 = if c.last_read is Some {
        TimelineModel { last_read: c.last_read, ..cm }
    } else {
        cm
    };
    let cm2 = match or_opt(c.unread_count, c.unread_count_display) {
        Some(u) => TimelineModel { unread_count: u, ..cm1 },
        None => cm1,
    };
    let cm3 = match c.mention_count {
        Some(m) => TimelineModel { mention_count: m, ..cm2 },
        None => cm2,
    };
    if c.has_unreads && cm3.unread_count == 0 && cm3.mention_count == 0 {
        TimelineModel { unread_count: 1, ..cm3 }
    } else {
        cm3
    }
}

/// The timeline of a channel, or an empty one.
pub open spec fn timeline_of(mv: Seq<(Seq<char>, TimelineModel)>, id: Seq<char>) -> TimelineModel {
    match keyed::vget(mv, id) {
        Some(t) => t,
        None => empty_timeline(),
    }
}

/// The timeline table after one channel's counters are applied.
pub open spec fn read_step(mv: Seq<(Seq<char>, TimelineModel)>, c: ChannelModel) -> Seq<(Seq<char>, TimelineModel)> {
    keyed::vput(mv, c.id@, read_state(timeline_of(mv, c.id@), c))
}

pub open spec fn read_all(mv: Seq<(Seq<char>, TimelineModel)>, chans: Seq<Channel>) -> Seq<(Seq<char>, TimelineModel)>
    decreases chans.len(),
{
    if chans.len() == 0 {
        mv
    } else {
        read_step(read_all(mv, chans.drop_last()), chans.last()@)
    }
}

/// A stored channel after a later description of it: a non-blank name
/// replaces the stored one, flags accumulate, reported values win, extra
/// fields are merged key by key.
pub open spec fn merged_metadata(e: ChannelModel, u: ChannelModel) -> ChannelModel {
    ChannelModel {
        name: if u.name is Some && text::trim_spec(u.name->0@).len() > 0 {
            u.name
        } else {
            e.name
        },
        is_channel: e.is_channel || u.is_channel,
        is_group: e.is_group || u.is_group,
        is_im: e.is_im || u.is_im,
        is_mpim: e.is_mpim || u.is_mpim,
        is_private: e.is_private || u.is_private,
        is_archived: e.is_archived || u.is_archived,
        is_starred: e.is_starred || u.is_starred,
        has_unreads: e.has_unreads || u.has_unreads,
        updated: or_opt(u.updated, e.updated),
        user: or_opt(u.user, e.user),
        unread_count: or_opt(u.unread_count, e.unread_count),
        unread_count_display: or_opt(u.unread_count_display, e.unread_count_display),
        mention_count: or_opt(u.mention_count, e.mention_count),
        last_read: or_opt(u.last_read, e.last_read),
        extra: keyed::extend(e.extra, u.extra),
        ..e
    }
}

/// A stored channel after Slack's counters for it: stars and unread flags
/// accumulate, reported counters win, the later update time is kept.
pub open spec fn counts_merged(e: ChannelModel, u: ChannelModel) -> ChannelModel {
    ChannelModel {
        is_starred: e.is_starred || u.is_starred,
        unread_count: or_opt(u.unread_count, e.unread_count),
        unread_count_display: or_opt(u.unread_count_display, e.unread_count_display),
        mention_count: or_opt(u.mention_count, e.mention_count),
        has_unreads: e.has_unreads || u.has_unreads,
        last_read: or_opt(u.last_read, e.last_read),
        updated: opt_max(u.updated, e.updated),
        ..e
    }
}

/// Stores a channel, or merges its description into the stored one.
pub open spec fn meta_step(cv: Seq<(Seq<char>, ChannelModel)>, c: ChannelModel) -> Seq<(Seq<char>, ChannelModel)> {
    match keyed::vget(cv, c.id@) {
        Some(e) => keyed::vput(cv, c.id@, merged_metadata(e, c)),
        None => keyed::vput(cv, c.id@, c),
    }
}

/// Stores a channel, or merges its counters into the stored one.
pub open spec fn counts_step(cv: Seq<(Seq<char>, ChannelModel)>, c: ChannelModel) -> Seq<(Seq<char>, ChannelModel)> {
    match keyed::vget(cv, c.id@) {
        Some(e) => keyed::vput(cv, c.id@, counts_merged(e, c)),
        None => keyed::vput(cv, c.id@, c),
    }
}

pub open spec fn insert_all(cv: Seq<(Seq<char>, ChannelModel)>, chans: Seq<Channel>) -> Seq<(Seq<char>, ChannelModel)>
    decreases chans.len(),
{
    if chans.len() == 0 {
        cv
    } else {
        let prev = insert_all(cv, chans.drop_last());
        keyed::vput(prev, chans.last().id@, chans.last()@)
    }
}

/// Marks the listed channels starred.
pub open spec fn star_all(cv: Seq<(Seq<char>, ChannelModel)>, ids: Seq<String>) -> Seq<(Seq<char>, ChannelModel)>
    decreases ids.len(),
{
    if ids.len() == 0 {
        cv
    } else {
        let prev = star_all(cv, ids.drop_last());
        match keyed::vget(prev, ids.last()@) {
            Some(e) => keyed::vput(prev, ids.last()@, ChannelModel { is_starred: true, ..e }),
            None => prev,
        }
    }
}

/// The DM order after seeing channels: DMs and group DMs are appended once.
pub open spec fn dm_all(dm: Seq<String>, chans: Seq<Channel>) -> Seq<String>
    decreases chans.len(),
{
    if chans.len() == 0 {
        dm
    } else {
        let prev = dm_all(dm, chans.drop_last());
        if chans.last().is_im || chans.last().is_mpim {
            keyed::append_unique(prev, chans.last().id)
        } else {
            prev
        }
    }
}

/// Every channel appended to the DM order.
pub open spec fn dm_all_any(dm: Seq<String>, chans: Seq<Channel>) -> Seq<String>
    decreases chans.len(),
{
    if chans.len() == 0 {
        dm
    } else {
        keyed::append_unique(dm_all_any(dm, chans.drop_last()), chans.last().id)
    }
}

pub open spec fn meta_all(cv: Seq<(Seq<char>, ChannelModel)>, chans: Seq<Channel>) -> Seq<(Seq<char>, ChannelModel)>
    decreases chans.len(),
{
    if chans.len() == 0 {
        cv
    } else {
        meta_step(meta_all(cv, chans.drop_last()), chans.last()@)
    }
}

pub open spec fn counts_all(cv: Seq<(Seq<char>, ChannelModel)>, chans: Seq<Channel>) -> Seq<(Seq<char>, ChannelModel)>
    decreases chans.len(),
{
    if chans.len() == 0 {
        cv
    } else {
        counts_step(counts_all(cv, chans.drop_last()), chans.last()@)
    }
}

/// `lookup` finds exactly the keys of the plain-value entries.
proof fn lemma_lookup_has_key(m: Seq<(String, JsonValue)>, k: Seq<char>)
    ensures
        (crate::models::lookup(m, k) is Some) == keyed::has_key(map_model(m), k),
    decreases m.len(),
{
    if m.len() > 0 {
        assert(map_model(m)[0].0 == m[0].0);
        assert(map_model(m).drop_first() =~= map_model(m.drop_first()));
        lemma_lookup_has_key(m.drop_first(), k);
    }
}

proof fn lemma_keys_not_in_model(a: Seq<(String, JsonValue)>, b: Seq<(String, JsonValue)>)
    ensures
        map_model(crate::timeline::keys_not_in(a, b)) == keyed::keys_not_in(map_model(a), map_model(b)),
    decreases a.len(),
{
    if a.len() > 0 {
        lemma_lookup_has_key(b, a[0].0@);
        lemma_keys_not_in_model(a.drop_first(), b);
        assert(map_model(a).drop_first() =~= map_model(a.drop_first()));
        assert(map_model(a)[0] == (a[0].0, a[0].1@));
        let r = crate::timeline::keys_not_in(a.drop_first(), b);
        assert(map_model(seq![a[0]] + r) =~= seq![(a[0].0, a[0].1@)] + map_model(r));
    }
}

/// Merging extra fields commutes with taking their plain values.
proof fn lemma_extend_model(a: Seq<(String, JsonValue)>, b: Seq<(String, JsonValue)>)
    ensures
        map_model(crate::timeline::map_extend(a, b)) == keyed::extend(map_model(a), map_model(b)),
{
    lemma_keys_not_in_model(a, b);
    let r = crate::timeline::keys_not_in(a, b);
    assert(map_model(b + r) =~= map_model(b) + map_model(r));
}

/// A channel with no fields set.
fn blank_channel() -> (c: Channel)
    ensures
        c.id@ == Seq::<char>::empty(),
        c.name is None,
        !c.is_channel && !c.is_group && !c.is_im && !c.is_mpim,
        !c.is_private && !c.is_archived && !c.is_starred && !c.is_ext_shared,
        c.updated is None,
        c.user is None,
        c.unread_count is None,
        c.unread_count_display is None,
        c.mention_count is None,
        !c.has_unreads,
        c.last_read is None,
        c.previous_names@.len() == 0,
        c.extra@.len() == 0,
{
    Channel {
        id: String::new(),
        name: None,
        is_channel: false,
        is_group: false,
        is_im: false,
        is_mpim: false,
        is_private: false,
        is_archived: false,
        is_starred: false,
        is_ext_shared: false,
        updated: None,
        user: None,
        unread_count: None,
        unread_count_display: None,
        mention_count: None,
        has_unreads: false,
        last_read: None,
        previous_names: Vec::new(),
        extra: Vec::new(),
    }
}

fn pick<T>(update: Option<T>, existing: Option<T>) -> (r: Option<T>)
    ensures
        r == or_opt(update, existing),
{
    if update.is_some() {
        update
    } else {
        existing
    }
}

/// The stored channel with a later description laid over it.
fn merged_channel(existing: Channel, update: Channel) -> (r: Channel)
    ensures
        r@ == merged_metadata(existing@, update@),
{
    let ghost (ev, uv) = (existing@, update@);
    let replace = match &update.name {
        Some(n) => !text::trim(n.as_str()).is_empty(),
        None => false,
    };
    let ghost old_extra = existing.extra@;
    let ghost ue = update.extra@;
    let extra = crate::timeline::extend_map(existing.extra, update.extra);
    proof {
        lemma_extend_model(old_extra, ue);
    }
    Channel {
        id: existing.id,
        name: if replace { update.name } else { existing.name },
        is_channel: existing.is_channel || update.is_channel,
        is_group: existing.is_group || update.is_group,
        is_im: existing.is_im || update.is_im,
        is_mpim: existing.is_mpim || update.is_mpim,
        is_private: existing.is_private || update.is_private,
        is_archived: existing.is_archived || update.is_archived,
        is_starred: existing.is_starred || update.is_starred,
        is_ext_shared: existing.is_ext_shared,
        updated: pick(update.updated, existing.updated),
        user: pick(update.user, existing.user),
        unread_count: pick(update.unread_count, existing.unread_count),
        unread_count_display: pick(update.unread_count_display, existing.unread_count_display),
        mention_count: pick(update.mention_count, existing.mention_count),
        has_unreads: existing.has_unreads || update.has_unreads,
        last_read: pick(update.last_read, existing.last_read),
        previous_names: existing.previous_names,
        extra,
    }
}

/// Lays a later description of a channel over the stored one.
pub fn merge_channel_metadata(existing: &mut Channel, update: Channel)
    ensures
        final(existing)@ == merged_metadata(old(existing)@, update@),
{
    let mut e = blank_channel();
    std::mem::swap(&mut e, existing);
    *existing = merged_channel(e, update);
}


/// The stored channel after Slack's counters for it.
fn counted_channel(existing: Channel, update: Channel) -> (r: Channel)
    ensures
        r@ == counts_merged(existing@, update@),
{
    let updated = match (update.updated, existing.updated) {
        (Some(x), Some(y)) => Some(if x >= y { x } else { y }),
        (Some(x), None) => Some(x),
        (None, b) => b,
    };
    Channel {
        is_starred: existing.is_starred || update.is_starred,
        unread_count: pick(update.unread_count, existing.unread_count),
        unread_count_display: pick(update.unread_count_display, existing.unread_count_display),
        mention_count: pick(update.mention_count, existing.mention_count),
        has_unreads: existing.has_unreads || update.has_unreads,
        last_read: pick(update.last_read, existing.last_read),
        updated,
        ..existing
    }
}

proof fn lemma_cview_keys(t: Seq<(String, Channel)>)
    ensures
        keyed::same_keys(t, cview(t)),
{
    assert forall|i: int| 0 <= i < t.len() implies (#[trigger] t[i]).0@ == cview(t)[i].0 by {}
}

proof fn lemma_mview_keys(t: Seq<(String, ChannelMessages)>)
    ensures
        keyed::same_keys(t, mview(t)),
{
    assert forall|i: int| 0 <= i < t.len() implies (#[trigger] t[i]).0@ == mview(t)[i].0 by {}
}

/// Applies a channel's reported read counters to its timeline.
fn read_counters(cm: &mut ChannelMessages, channel: &Channel)
    ensures
        final(cm)@ == read_state(old(cm)@, channel@),
{
    match &channel.last_read {
        Some(lr) => {
            cm.last_read = Some(lr.clone());
        },
        None => {},
    }
    let unread = if channel.unread_count.is_some() {
        channel.unread_count
    } else {
        channel.unread_count_display
    };
    match unread {
        Some(u) => {
            cm.unread_count = u;
        },
        None => {},
    }
    match channel.mention_count {
        Some(m) => {
            cm.mention_count = m;
        },
        None => {},
    }
    if channel.has_unreads && cm.unread_count == 0 && cm.mention_count == 0 {
        cm.unread_count = 1;
    }
}

impl Workspace {
    /// Applies a channel's read counters to its timeline, creating the
    /// timeline when there is none yet.
    fn apply_channel_read_state(&mut self, channel: &Channel)
        ensures
            mview(final(self).messages@) == read_step(mview(old(self).messages@), channel@),
            *final(self) == (Workspace { messages: final(self).messages, ..*old(self) }),
    {
        proof {
            lemma_mview_keys(self.messages@);
            keyed::lemma_same_pos(self.messages@, mview(self.messages@), channel.id@);
            keyed::lemma_key_pos_facts(self.messages@, channel.id@);
        }
        let ghost was_there = keyed::has_key(self.messages@, channel.id@);
        let i = match keyed::find(&self.messages, channel.id.as_str()) {
            Some(i) => i,
            None => {
                self.messages.push((channel.id.clone(), ChannelMessages::new()));
                self.messages.len() - 1
            },
        };
        let ghost mid = self.messages@;
        let ghost base = self.messages@[i as int].1@;
        assert(base == timeline_of(mview(old(self).messages@), channel.id@));
        let (k, mut cm) = self.messages.remove(i);
        read_counters(&mut cm, channel);
        let ghost cmv = cm@;
        let ghost kv = k@;
        self.messages.insert(i, (k, cm));
        assert(mview(self.messages@) =~= mview(mid).update(i as int, (kv, cmv)));
        proof {
            assert(kv == channel.id@);
            if was_there {
                assert(mview(self.messages@) =~= mview(old(self).messages@).update(i as int, (channel.id@, cmv)));
            } else {
                assert(mview(self.messages@) =~= mview(old(self).messages@).push((channel.id@, cmv)));
            }
        }
    }

    /// Stores a channel under its id, replacing a stored one.
    fn store_channel(&mut self, c: Channel)
        ensures
            cview(final(self).channels@) == keyed::vput(cview(old(self).channels@), c.id@, c@),
            *final(self) == (Workspace { channels: final(self).channels, ..*old(self) }),
    {
        proof {
            lemma_cview_keys(self.channels@);
            keyed::lemma_same_pos(self.channels@, cview(self.channels@), c.id@);
            keyed::lemma_key_pos_facts(self.channels@, c.id@);
        }
        let ghost cv = c@;
        let ghost before = self.channels@;
        let key = c.id.clone();
        keyed::insert(&mut self.channels, key, c);
        assert(cview(self.channels@) =~= keyed::vput(cview(before), key@, cv));
    }

    /// Stores a channel, or merges its description into the stored one.
    fn merge_channel(&mut self, c: Channel, counts: bool)
        ensures
            cview(final(self).channels@) == if counts {
                counts_step(cview(old(self).channels@), c@)
            } else {
                meta_step(cview(old(self).channels@), c@)
            },
            *final(self) == (Workspace { channels: final(self).channels, ..*old(self) }),
    {
        proof {
            lemma_cview_keys(self.channels@);
            keyed::lemma_same_pos(self.channels@, cview(self.channels@), c.id@);
            keyed::lemma_key_pos_facts(self.channels@, c.id@);
        }
        match keyed::find(&self.channels, c.id.as_str()) {
            Some(i) => {
                let ghost before = self.channels@;
                let ghost cv = c@;
                let (k, e) = self.channels.remove(i);
                let merged = if counts {
                    counted_channel(e, c)
                } else {
                    merged_channel(e, c)
                };
                let ghost mv = merged@;
                let ghost kv = k@;
                self.channels.insert(i, (k, merged));
                assert(cview(self.channels@) =~= cview(before).update(i as int, (kv, mv)));
            },
            None => {
                self.store_channel(c);
            },
        }
    }

    /// Marks the channels of the starred list starred.
    fn mark_starred(&mut self)
        ensures
            cview(final(self).channels@) == star_all(cview(old(self).channels@), old(self).starred_order@),
            *final(self) == (Workspace { channels: final(self).channels, ..*old(self) }),
    {
        let ghost ids = self.starred_order@;
        let ghost start = cview(self.channels@);
        let n = self.starred_order.len();
        for j in 0..n
            invariant
                n == ids.len(),
                ids == self.starred_order@,
                cview(self.channels@) == star_all(start, ids.take(j as int)),
                *self == (Workspace { channels: self.channels, ..*old(self) }),
        {
            assert(ids.take(j + 1).drop_last() =~= ids.take(j as int));
            proof {
                lemma_cview_keys(self.channels@);
                keyed::lemma_same_pos(self.channels@, cview(self.channels@), ids[j as int]@);
                keyed::lemma_key_pos_facts(self.channels@, ids[j as int]@);
            }
            match keyed::find(&self.channels, self.starred_order[j].as_str()) {
                Some(i) => {
                    let ghost before = self.channels@;
                    let (k, mut e) = self.channels.remove(i);
                    e.is_starred = true;
                    let ghost ev = e@;
                    let ghost kv = k@;
                    self.channels.insert(i, (k, e));
                    assert(cview(self.channels@) =~= cview(before).update(i as int, (kv, ev)));
                },
                None => {},
            }
        }
        assert(ids.take(ids.len() as int) =~= ids);
    }
}

/// The user table after storing each user under its id.
pub open spec fn users_put(m: Seq<(String, User)>, users: Seq<User>) -> Seq<(String, User)>
    decreases users.len(),
{
    if users.len() == 0 {
        m
    } else {
        keyed::put(users_put(m, users.drop_last()), users.last().id, users.last())
    }
}

/// The user record of the signed-in user, from the boot payload.
pub open spec fn boot_self_user(b: crate::models::BootSelf) -> User {
    User {
        id: b.id,
        name: b.name,
        real_name: match b.profile {
            Some(p) => p.real_name,
            None => None,
        },
        deleted: false,
        is_bot: false,
        profile: b.profile,
        extra: b.extra,
    }
}

/// The pieces of `s` between commas (`str::split(',')`).
pub open spec fn comma_pieces(s: Seq<char>) -> Seq<Seq<char>>
    decreases s.len(),
{
    if s.len() == 0 {
        seq![Seq::empty()]
    } else {
        let prev = comma_pieces(s.drop_last());
        if s.last() == ',' {
            prev.push(Seq::empty())
        } else {
            prev.update(prev.len() - 1, prev.last().push(s.last()))
        }
    }
}

/// The non-empty pieces, each once, in order of first appearance.
pub open spec fn word_set(pieces: Seq<Seq<char>>) -> Seq<Seq<char>>
    decreases pieces.len(),
{
    if pieces.len() == 0 {
        Seq::empty()
    } else {
        let prev = word_set(pieces.drop_last());
        if pieces.last().len() == 0 || prev.contains(pieces.last()) {
            prev
        } else {
            prev.push(pieces.last())
        }
    }
}

/// The text of an optional string, empty when absent.
pub open spec fn opt_text(s: Option<String>) -> Seq<char> {
    match s {
        Some(t) => t@,
        None => Seq::empty(),
    }
}

proof fn lemma_comma_pieces_len(s: Seq<char>)
    ensures
        comma_pieces(s).len() >= 1,
    decreases s.len(),
{
    if s.len() > 0 {
        lemma_comma_pieces_len(s.drop_last());
    }
}

/// Is `w` one of `words`?
fn has_word(words: &Vec<String>, w: &Vec<char>) -> (r: bool)
    ensures
        r == crate::models::strings_view(words@).contains(w@),
{
    let ghost wv = crate::models::strings_view(words@);
    let mut i: usize = 0;
    while i < words.len()
        invariant
            i <= words@.len(),
            wv == crate::models::strings_view(words@),
            forall|j: int| 0 <= j < i ==> (#[trigger] words@[j])@ != w@,
        decreases words.len() - i,
    {
        let cs = text::to_chars(words[i].as_str());
        if text::chars_eq(cs.as_slice(), w.as_slice()) {
            assert(wv[i as int] == w@);
            return true;
        }
        i = i + 1;
    }
    assert(!wv.contains(w@)) by {
        if wv.contains(w@) {
            let j = choose|j: int| 0 <= j < wv.len() && wv[j] == w@;
            assert(words@[j]@ == w@);
        }
    }
    false
}

/// Adds a finished piece to the words unless it is empty or known.
fn add_word(words: &mut Vec<String>, w: &Vec<char>)
    ensures
        crate::models::strings_view(final(words)@) == if w@.len() == 0 || crate::models::strings_view(old(words)@).contains(w@) {
            crate::models::strings_view(old(words)@)
        } else {
            crate::models::strings_view(old(words)@).push(w@)
        },
{
    if w.len() > 0 && !has_word(words, w) {
        let t = text::from_chars(w.as_slice());
        words.push(t);
        assert(crate::models::strings_view(words@) =~= crate::models::strings_view(old(words)@).push(w@));
    }
}

/// The distinct non-empty comma-separated words of `s`.
pub fn comma_words(s: &str) -> (r: Vec<String>)
    ensures
        crate::models::strings_view(r@) == word_set(comma_pieces(s@)),
{
    let v = text::to_chars(s);
    let mut words: Vec<String> = Vec::new();
    let mut cur: Vec<char> = Vec::new();
    for i in 0..v.len()
        invariant
            v@ == s@,
            crate::models::strings_view(words@) == word_set(comma_pieces(s@.take(i as int)).drop_last()),
            cur@ == comma_pieces(s@.take(i as int)).last(),
            comma_pieces(s@.take(i as int)).len() >= 1,
    {
        let ghost pre = comma_pieces(s@.take(i as int));
        assert(s@.take(i + 1).drop_last() =~= s@.take(i as int));
        if v[i] == ',' {
            add_word(&mut words, &cur);
            cur = Vec::new();
            assert(comma_pieces(s@.take(i + 1)) == pre.push(Seq::empty()));
            assert(comma_pieces(s@.take(i + 1)).drop_last() =~= pre);
            assert(pre.drop_last().push(pre.last()) =~= pre);
            assert(cur@ =~= Seq::<char>::empty());
        } else {
            cur.push(v[i]);
            assert(comma_pieces(s@.take(i + 1)).drop_last() =~= pre.drop_last());
        }
    }
    assert(s@.take(v.len() as int) =~= s@);
    let ghost all = comma_pieces(s@);
    add_word(&mut words, &cur);
    assert(all.drop_last().push(all.last()) =~= all);
    words
}


/// Which per-channel steps a batch of channels goes through.
#[derive(Clone, Copy, PartialEq, Eq, Structural)]
enum Absorb {
    /// Boot: DMs join the DM order, counters apply, the channel is stored.
    Boot,
    /// Counts: counters apply, counters merge into the stored channel.
    Counts,
    /// Sidebar DMs: every channel joins the DM order, counters apply,
    /// descriptions merge.
    SidebarDms,
    /// Channel info: counters apply, descriptions merge.
    Info,
}

/// The channel table after a batch of channels.
pub open spec fn absorbed_channels(mode_counts: bool, mode_insert: bool, cv: Seq<(Seq<char>, ChannelModel)>, chans: Seq<Channel>) -> Seq<(Seq<char>, ChannelModel)> {
    if mode_insert {
        insert_all(cv, chans)
    } else if mode_counts {
        counts_all(cv, chans)
    } else {
        meta_all(cv, chans)
    }
}

spec fn dm_effect(mode: Absorb, dm: Seq<String>, chans: Seq<Channel>) -> Seq<String> {
    match mode {
        Absorb::Boot => dm_all(dm, chans),
        Absorb::SidebarDms => dm_all_any(dm, chans),
        _ => dm,
    }
}

spec fn channel_effect(mode: Absorb, cv: Seq<(Seq<char>, ChannelModel)>, chans: Seq<Channel>) -> Seq<(Seq<char>, ChannelModel)> {
    absorbed_channels(mode == Absorb::Counts, mode == Absorb::Boot, cv, chans)
}

impl Workspace {
    /// Runs a batch of channels through the steps of `mode`, in order.
    fn absorb(&mut self, chans: Vec<Channel>, mode: Absorb)
        ensures
            final(self).dm_order@ == dm_effect(mode, old(self).dm_order@, chans@),
            (mode == Absorb::Counts || mode == Absorb::Info) ==> final(self).dm_order == old(self).dm_order,
            mview(final(self).messages@) == read_all(mview(old(self).messages@), chans@),
            cview(final(self).channels@) == channel_effect(mode, cview(old(self).channels@), chans@),
            *final(self) == (Workspace {
                dm_order: final(self).dm_order,
                messages: final(self).messages,
                channels: final(self).channels,
                ..*old(self)
            }),
    {
        let mut chans = chans;
        let n0 = chans.len();
        let ghost all = chans@;
        let mut taken: usize = 0;
        while chans.len() > 0
            invariant
                taken + chans@.len() == all.len(),
                all.len() <= usize::MAX,
                chans@ == all.skip(taken as int),
                self.dm_order@ == dm_effect(mode, old(self).dm_order@, all.take(taken as int)),
                (mode == Absorb::Counts || mode == Absorb::Info) ==> self.dm_order == old(self).dm_order,
                mview(self.messages@) == read_all(mview(old(self).messages@), all.take(taken as int)),
                cview(self.channels@) == channel_effect(mode, cview(old(self).channels@), all.take(taken as int)),
                *self == (Workspace {
                    dm_order: self.dm_order,
                    messages: self.messages,
                    channels: self.channels,
                    ..*old(self)
                }),
            decreases chans.len(),
        {
            let c = chans.remove(0);
            assert(c == all[taken as int]);
            assert(chans@ =~= all.skip(taken + 1));
            assert(all.take(taken + 1).drop_last() =~= all.take(taken as int));
            assert(all.take(taken + 1).last() == c);
            let into_dm = match mode {
                Absorb::Boot => c.is_im || c.is_mpim,
                Absorb::SidebarDms => true,
                _ => false,
            };
            if into_dm {
                keyed::push_unique(&mut self.dm_order, c.id.clone());
            }
            self.apply_channel_read_state(&c);
            match mode {
                Absorb::Boot => self.store_channel(c),
                Absorb::Counts => self.merge_channel(c, true),
                _ => self.merge_channel(c, false),
            }
            taken = taken + 1;
        }
        assert(all.take(all.len() as int) =~= all);
    }

    /// Stores each user under its id.
    fn store_users(&mut self, users: Vec<User>)
        ensures
            final(self).users@ == users_put(old(self).users@, users@),
            *final(self) == (Workspace { users: final(self).users, ..*old(self) }),
    {
        let mut users = users;
        let n0 = users.len();
        let ghost all = users@;
        let mut taken: usize = 0;
        while users.len() > 0
            invariant
                taken + users@.len() == all.len(),
                all.len() <= usize::MAX,
                users@ == all.skip(taken as int),
                self.users@ == users_put(old(self).users@, all.take(taken as int)),
                *self == (Workspace { users: self.users, ..*old(self) }),
            decreases users.len(),
        {
            let u = users.remove(0);
            assert(u == all[taken as int]);
            assert(users@ =~= all.skip(taken + 1));
            assert(all.take(taken + 1).drop_last() =~= all.take(taken as int));
            let key = u.id.clone();
            keyed::insert(&mut self.users, key, u);
            taken = taken + 1;
        }
        assert(all.take(all.len() as int) =~= all);
    }

    /// Takes in what `client.userBoot` returned: the signed-in user, the
    /// team's name and URL, the sidebar preferences, every channel with its
    /// read counters, the starred channels and the users. `section_prefs`
    /// are the per-section preferences decoded from the boot preferences'
    /// `channel_sections` JSON (empty when it is missing or malformed).
    pub fn apply_boot(&mut self, boot: BootData, section_prefs: Vec<(String, SectionPref)>)
        ensures
            final(self).self_user_id == (if boot.self_user.id@.len() > 0 {
                boot.self_user.id
            } else {
                old(self).self_user_id
            }),
            final(self).name == (match boot.team {
                Some(t) => match t.name {
                    Some(n) => n,
                    None => old(self).name,
                },
                None => old(self).name,
            }),
            final(self).url == (match boot.team {
                Some(t) => match t.url {
                    Some(u) => u,
                    None => old(self).url,
                },
                None => old(self).url,
            }),
            final(self).starred_order == boot.starred,
            final(self).hide_read_channels_unless_starred == (text::string_opt(boot.prefs.sidebar_behavior)
                == Some("hide_read_channels_unless_starred"@)),
            final(self).priority_sidebar_section == boot.prefs.priority_sidebar_section,
            final(self).priority_ranks == boot.channels_priority,
            crate::models::strings_view(final(self).vip_users@) == word_set(comma_pieces(opt_text(boot.prefs.vip_users))),
            crate::models::strings_view(final(self).sidebar.hidden_sections@) == word_set(
                comma_pieces(opt_text(boot.prefs.hidden_user_group_sections)),
            ),
            final(self).sidebar.section_prefs == section_prefs,
            final(self).sidebar.sections == old(self).sidebar.sections,
            final(self).dm_order@ == dm_all(
                old(self).dm_order@,
                crate::channels::dedupe_ids(boot.channels@ + boot.groups@ + boot.ims@ + boot.mpims@),
            ),
            mview(final(self).messages@) == read_all(
                mview(old(self).messages@),
                crate::channels::dedupe_ids(boot.channels@ + boot.groups@ + boot.ims@ + boot.mpims@),
            ),
            cview(final(self).channels@) == star_all(
                insert_all(
                    cview(old(self).channels@),
                    crate::channels::dedupe_ids(boot.channels@ + boot.groups@ + boot.ims@ + boot.mpims@),
                ),
                boot.starred@,
            ),
            final(self).users@ == (if boot.self_user.id@.len() > 0 {
                keyed::put(users_put(old(self).users@, boot.users@), boot.self_user.id, boot_self_user(boot.self_user))
            } else {
                users_put(old(self).users@, boot.users@)
            }),
            *final(self) == (Workspace {
                self_user_id: final(self).self_user_id,
                name: final(self).name,
                url: final(self).url,
                starred_order: final(self).starred_order,
                hide_read_channels_unless_starred: final(self).hide_read_channels_unless_starred,
                priority_sidebar_section: final(self).priority_sidebar_section,
                priority_ranks: final(self).priority_ranks,
                vip_users: final(self).vip_users,
                sidebar: final(self).sidebar,
                dm_order: final(self).dm_order,
                messages: final(self).messages,
                channels: final(self).channels,
                users: final(self).users,
                ..*old(self)
            }),
            old(self).wf() ==> final(self).wf(),
    {
        let ghost b = boot;
        let BootData { self_user, team, channels, ims, groups, mpims, users, starred, prefs, channels_priority, extra: _ } = boot;
        let crate::models::BootSelf { id: self_id, name: self_name, profile: self_profile, extra: self_extra } = self_user;
        let self_real_name = match &self_profile {
            Some(p) => match &p.real_name {
                Some(r) => Some(r.clone()),
                None => None,
            },
            None => None,
        };
        let has_self = !self_id.as_str().is_empty();
        if has_self {
            self.self_user_id = self_id.clone();
        }
        match &team {
            Some(t) => {
                match &t.name {
                    Some(n) => {
                        self.name = n.clone();
                    },
                    None => {},
                }
                match &t.url {
                    Some(u) => {
                        self.url = u.clone();
                    },
                    None => {},
                }
            },
            None => {},
        }
        self.starred_order = starred;
        proof {
            reveal_strlit("hide_read_channels_unless_starred");
        }
        self.hide_read_channels_unless_starred = text::opt_eq_str(
            &prefs.sidebar_behavior,
            "hide_read_channels_unless_starred",
        );
        self.priority_sidebar_section = prefs.priority_sidebar_section;
        self.priority_ranks = channels_priority;
        self.vip_users = match &prefs.vip_users {
            Some(v) => comma_words(v.as_str()),
            None => comma_words(""),
        };
        self.sidebar.section_prefs = section_prefs;
        self.sidebar.hidden_sections = match &prefs.hidden_user_group_sections {
            Some(v) => comma_words(v.as_str()),
            None => comma_words(""),
        };
        proof {
            reveal_strlit("");
            assert(""@ =~= Seq::<char>::empty());
        }
        let all = crate::channels::unique_channels(channels, groups, ims, mpims);
        self.absorb(all, Absorb::Boot);
        self.mark_starred();
        self.store_users(users);
        if has_self {
            let me = User {
                id: self_id.clone(),
                name: self_name,
                real_name: self_real_name,
                deleted: false,
                is_bot: false,
                profile: self_profile,
                extra: self_extra,
            };
            proof {
                if old(self).wf() {
                    wellformed::lemma_users_put_unique(old(self).users@, b.users@);
                    wellformed::lemma_users_put_by_id(old(self).users@, b.users@);
                    wellformed::lemma_put_user_by_id(self.users@, self_id, me);
                }
                keyed::lemma_put(self.users@, self_id, me);
            }
            keyed::insert(&mut self.users, self_id, me);
        }
        proof {
            if old(self).wf() {
                let chans = crate::channels::dedupe_ids(b.channels@ + b.groups@ + b.ims@ + b.mpims@);
                wellformed::lemma_channels_unique(old(self).channels@);
                wellformed::lemma_insert_all_unique(cview(old(self).channels@), chans);
                wellformed::lemma_star_all_unique(insert_all(cview(old(self).channels@), chans), b.starred@);
                wellformed::lemma_channels_unique(self.channels@);
                wellformed::lemma_channels_by_id(old(self).channels@);
                wellformed::lemma_insert_all_by_id(cview(old(self).channels@), chans);
                wellformed::lemma_star_all_by_id(insert_all(cview(old(self).channels@), chans), b.starred@);
                wellformed::lemma_channels_by_id(self.channels@);
                wellformed::lemma_users_put_by_id(old(self).users@, b.users@);
                wellformed::lemma_messages_unique(old(self).messages@);
                wellformed::lemma_read_all_unique(mview(old(self).messages@), chans);
                wellformed::lemma_messages_unique(self.messages@);
                wellformed::lemma_dm_all_distinct(old(self).dm_order@, chans);
                wellformed::lemma_users_put_unique(old(self).users@, b.users@);
                law_comma_words_distinct(opt_text(b.prefs.vip_users));
                law_comma_words_distinct(opt_text(b.prefs.hidden_user_group_sections));
                wellformed::lemma_words_distinct(self.vip_users@);
                wellformed::lemma_words_distinct(self.sidebar.hidden_sections@);
            }
        }
    }

    /// Takes in `client.counts`: the activity badge and every channel's
    /// unread counters.
    pub fn apply_counts(&mut self, counts: CountsPage)
        ensures
            final(self).activity_unread_count == (match counts.activity_v2 {
                Some(a) => Some(crate::channels::capped(crate::channels::count_sum(a@))),
                None => old(self).activity_unread_count,
            }),
            mview(final(self).messages@) == read_all(
                mview(old(self).messages@),
                crate::channels::dedupe_ids(counts.channels@ + counts.groups@ + counts.ims@ + counts.mpims@),
            ),
            cview(final(self).channels@) == counts_all(
                cview(old(self).channels@),
                crate::channels::dedupe_ids(counts.channels@ + counts.groups@ + counts.ims@ + counts.mpims@),
            ),
            *final(self) == (Workspace {
                activity_unread_count: final(self).activity_unread_count,
                messages: final(self).messages,
                channels: final(self).channels,
                ..*old(self)
            }),
            old(self).wf() ==> final(self).wf(),
    {
        let ghost chans = crate::channels::dedupe_ids(counts.channels@ + counts.groups@ + counts.ims@ + counts.mpims@);
        match counts.activity_unread_count() {
            Some(u) => {
                self.activity_unread_count = Some(u);
            },
            None => {},
        }
        let CountsPage { channels, ims, groups, mpims, activity_v2: _, extra: _ } = counts;
        let all = crate::channels::unique_channels(channels, groups, ims, mpims);
        self.absorb(all, Absorb::Counts);
        proof {
            if old(self).wf() {
                wellformed::lemma_channels_unique(old(self).channels@);
                wellformed::lemma_counts_all_unique(cview(old(self).channels@), chans);
                wellformed::lemma_channels_unique(self.channels@);
                wellformed::lemma_channels_by_id(old(self).channels@);
                wellformed::lemma_counts_all_by_id(cview(old(self).channels@), chans);
                wellformed::lemma_channels_by_id(self.channels@);
                wellformed::lemma_messages_unique(old(self).messages@);
                wellformed::lemma_read_all_unique(mview(old(self).messages@), chans);
                wellformed::lemma_messages_unique(self.messages@);
            }
        }
    }

    /// Takes in the sidebar's DM list: every DM joins the DM order once, its
    /// counters apply and its description merges into the stored channel.
    pub fn apply_sidebar_dms(&mut self, dms: SidebarDmsPage)
        ensures
            final(self).dm_order@ == dm_all_any(old(self).dm_order@, crate::channels::dedupe_ids(dms.ims@ + dms.mpdms@)),
            mview(final(self).messages@) == read_all(
                mview(old(self).messages@),
                crate::channels::dedupe_ids(dms.ims@ + dms.mpdms@),
            ),
            cview(final(self).channels@) == meta_all(
                cview(old(self).channels@),
                crate::channels::dedupe_ids(dms.ims@ + dms.mpdms@),
            ),
            *final(self) == (Workspace {
                dm_order: final(self).dm_order,
                messages: final(self).messages,
                channels: final(self).channels,
                ..*old(self)
            }),
            old(self).wf() ==> final(self).wf(),
    {
        let SidebarDmsPage { ims, mpdms, extra: _ } = dms;
        let ghost (a, b) = (ims@, mpdms@);
        let all = crate::channels::unique_channels(ims, mpdms, Vec::new(), Vec::new());
        assert(a + b + Seq::<Channel>::empty() + Seq::<Channel>::empty() =~= a + b);
        self.absorb(all, Absorb::SidebarDms);
        proof {
            if old(self).wf() {
                let chans = crate::channels::dedupe_ids(a + b);
                wellformed::lemma_channels_unique(old(self).channels@);
                wellformed::lemma_meta_all_unique(cview(old(self).channels@), chans);
                wellformed::lemma_channels_unique(self.channels@);
                wellformed::lemma_channels_by_id(old(self).channels@);
                wellformed::lemma_meta_all_by_id(cview(old(self).channels@), chans);
                wellformed::lemma_channels_by_id(self.channels@);
                wellformed::lemma_messages_unique(old(self).messages@);
                wellformed::lemma_read_all_unique(mview(old(self).messages@), chans);
                wellformed::lemma_messages_unique(self.messages@);
                wellformed::lemma_dm_all_distinct(old(self).dm_order@, chans);
            }
        }
    }

    /// Takes in channel descriptions from `conversations.info`: counters
    /// apply, descriptions merge, and starred channels stay starred.
    pub fn apply_channels_info(&mut self, channels: Vec<Channel>)
        ensures
            mview(final(self).messages@) == read_all(mview(old(self).messages@), channels@),
            cview(final(self).channels@) == star_all(meta_all(cview(old(self).channels@), channels@), old(self).starred_order@),
            *final(self) == (Workspace {
                messages: final(self).messages,
                channels: final(self).channels,
                ..*old(self)
            }),
            old(self).wf() ==> final(self).wf(),
    {
        let ghost chans = channels@;
        self.absorb(channels, Absorb::Info);
        self.mark_starred();
        proof {
            if old(self).wf() {
                wellformed::lemma_channels_unique(old(self).channels@);
                wellformed::lemma_meta_all_unique(cview(old(self).channels@), chans);
                wellformed::lemma_star_all_unique(meta_all(cview(old(self).channels@), chans), old(self).starred_order@);
                wellformed::lemma_channels_unique(self.channels@);
                wellformed::lemma_channels_by_id(old(self).channels@);
                wellformed::lemma_meta_all_by_id(cview(old(self).channels@), chans);
                wellformed::lemma_star_all_by_id(meta_all(cview(old(self).channels@), chans), old(self).starred_order@);
                wellformed::lemma_channels_by_id(self.channels@);
                wellformed::lemma_messages_unique(old(self).messages@);
                wellformed::lemma_read_all_unique(mview(old(self).messages@), chans);
                wellformed::lemma_messages_unique(self.messages@);
            }
        }
    }
}


// ---------------------------------------------------------------------------
// Reading the workspace
// ---------------------------------------------------------------------------

/// Does the text contain `needle`?
pub open spec fn contains_seq(hay: Seq<char>, needle: Seq<char>) -> bool {
    exists|i: int| 0 <= i && i + needle.len() <= hay.len() && #[trigger] hay.subrange(i, i + needle.len()) == needle
}

/// Does the text, ASCII letters lowered, mention "vip"?
pub open spec fn mentions_vip(s: Seq<char>) -> bool {
    contains_seq(text::lower_spec(s), "vip"@)
}

/// Does a JSON value name a VIP: a string mentioning "vip", or an array or
/// object holding such a string, or an object with such a key?
pub open spec fn names_vip(v: JsonValue) -> bool
    decreases v, v.items@.len() + v.members@.len() + 1,
{
    match v.scalar {
        crate::models::JsonScalar::Str(s) => mentions_vip(s@),
        crate::models::JsonScalar::Array => items_name_vip(v, v.items@.len() as int),
        crate::models::JsonScalar::Object => members_name_vip(v, v.members@.len() as int),
        _ => false,
    }
}

/// Does one of the first `n` elements of an array name a VIP?
pub open spec fn items_name_vip(v: JsonValue, n: int) -> bool
    decreases v, if n > 0 { n } else { 0 },
{
    if n <= 0 || n > v.items@.len() {
        false
    } else {
        proof {
            assert(decreases_to!(v => v.items@[n - 1]));
        }
        items_name_vip(v, n - 1) || names_vip(v.items@[n - 1])
    }
}

/// Does one of the first `n` members of an object name a VIP, by key or value?
pub open spec fn members_name_vip(v: JsonValue, n: int) -> bool
    decreases v, if n > 0 { n } else { 0 },
{
    if n <= 0 || n > v.members@.len() {
        false
    } else {
        proof {
            assert(decreases_to!(v => v.members@[n - 1].1));
        }
        members_name_vip(v, n - 1) || mentions_vip(v.members@[n - 1].0@) || names_vip(v.members@[n - 1].1)
    }
}

/// Does `hay` contain `needle`?
pub(crate) fn chars_contain(hay: &Vec<char>, needle: &Vec<char>) -> (r: bool)
    ensures
        r == contains_seq(hay@, needle@),
{
    if needle.len() > hay.len() {
        return false;
    }
    let n = hay.len();
    let last = hay.len() - needle.len();
    let mut i: usize = 0;
    while i <= last
        invariant
            n == hay@.len(),
            last + needle@.len() == hay@.len(),
            forall|j: int| 0 <= j < i ==> #[trigger] hay@.subrange(j, j + needle@.len()) != needle@,
        decreases last + 1 - i,
    {
        let mut k: usize = 0;
        let mut same = true;
        while k < needle.len()
            invariant
                n == hay@.len(),
                i <= last,
                last + needle@.len() == hay@.len(),
                k <= needle@.len(),
                same == (forall|m: int| 0 <= m < k ==> hay@[i + m] == needle@[m]),
            decreases needle.len() - k,
        {
            if hay[i + k] != needle[k] {
                same = false;
            }
            k = k + 1;
        }
        if same {
            assert(hay@.subrange(i as int, i + needle@.len()) =~= needle@);
            return true;
        }
        assert(hay@.subrange(i as int, i + needle@.len()) != needle@) by {
            let m = choose|m: int| 0 <= m < needle@.len() && hay@[i + m] != needle@[m];
            assert(hay@.subrange(i as int, i + needle@.len())[m] == hay@[i + m]);
        }
        if i == last {
            assert forall|j: int| 0 <= j && j + needle@.len() <= hay@.len() implies #[trigger] hay@.subrange(j, j + needle@.len()) != needle@ by {
                assert(j <= i);
            }
            return false;
        }
        i = i + 1;
    }
    false
}

/// Does the text, ASCII letters lowered, mention "vip"?
fn text_mentions_vip(s: &str) -> (r: bool)
    ensures
        r == mentions_vip(s@),
{
    let v = text::to_chars(s);
    let low = text::lower_chars(v.as_slice());
    let needle = text::to_chars("vip");
    chars_contain(&low, &needle)
}

/// Does a JSON value name a VIP?
pub fn value_names_vip(v: &JsonValue) -> (r: bool)
    ensures
        r == names_vip(*v),
    decreases v,
{
    match &v.scalar {
        crate::models::JsonScalar::Str(s) => text_mentions_vip(s.as_str()),
        crate::models::JsonScalar::Array => {
            let mut i: usize = 0;
            while i < v.items.len()
                invariant
                    v.scalar is Array,
                    i <= v.items@.len(),
                    !items_name_vip(*v, i as int),
                decreases v.items.len() - i,
            {
                proof {
                    assert(decreases_to!(*v => v.items@[i as int]));
                }
                if value_names_vip(&v.items[i]) {
                    assert(items_name_vip(*v, i + 1));
                    proof {
                        lemma_items_vip_mono(*v, i + 1, v.items@.len() as int);
                    }
                    return true;
                }
                i = i + 1;
            }
            false
        },
        crate::models::JsonScalar::Object => {
            let mut i: usize = 0;
            while i < v.members.len()
                invariant
                    v.scalar is Object,
                    i <= v.members@.len(),
                    !members_name_vip(*v, i as int),
                decreases v.members.len() - i,
            {
                proof {
                    assert(decreases_to!(*v => v.members@[i as int].1));
                }
                if text_mentions_vip(v.members[i].0.as_str()) || value_names_vip(&v.members[i].1) {
                    assert(members_name_vip(*v, i + 1));
                    proof {
                        lemma_members_vip_mono(*v, i + 1, v.members@.len() as int);
                    }
                    return true;
                }
                i = i + 1;
            }
            false
        },
        _ => false,
    }
}

proof fn lemma_items_vip_mono(v: JsonValue, a: int, b: int)
    requires
        0 <= a <= b <= v.items@.len(),
        items_name_vip(v, a),
    ensures
        items_name_vip(v, b),
    decreases b - a,
{
    if a < b {
        lemma_items_vip_mono(v, a, b - 1);
    }
}

proof fn lemma_members_vip_mono(v: JsonValue, a: int, b: int)
    requires
        0 <= a <= b <= v.members@.len(),
        members_name_vip(v, a),
    ensures
        members_name_vip(v, b),
    decreases b - a,
{
    if a < b {
        lemma_members_vip_mono(v, a, b - 1);
    }
}


/// `Value::as_bool` of the first of the star flags Slack uses that is present.
pub open spec fn extra_star_flag(extra: Seq<(String, JsonValue)>) -> bool {
    let v = or_opt(
        crate::models::lookup(extra, "is_starred"@),
        or_opt(crate::models::lookup(extra, "starred"@), crate::models::lookup(extra, "is_favorite"@)),
    );
    match v {
        Some(j) => j.scalar == crate::models::JsonScalar::Bool(true),
        None => false,
    }
}

/// The newest message with a timestamp, the last one among equal keys
/// (`Iterator::max_by`).
pub open spec fn latest_msg(s: Seq<crate::models::Message>) -> Option<crate::models::Message>
    decreases s.len(),
{
    if s.len() == 0 {
        None
    } else {
        let prev = latest_msg(s.drop_last());
        match s.last().ts {
            None => prev,
            Some(t) => match prev {
                None => Some(s.last()),
                Some(p) => if crate::timeline::key_le_ts(p.ts->0, t) {
                    Some(s.last())
                } else {
                    prev
                },
            },
        }
    }
}

/// Who wrote the newest message of a channel.
pub open spec fn latest_author_spec(m: Seq<(String, ChannelMessages)>, channel: Seq<char>) -> Option<Seq<char>> {
    match keyed::get(m, channel) {
        Some(cm) => match latest_msg(cm.messages@) {
            Some(msg) => text::string_opt(msg.user),
            None => None,
        },
        None => None,
    }
}

/// Does an extra field mark a VIP channel: a key mentioning "vip", a true
/// flag whose key mentions "priority", or a value naming a VIP?
pub open spec fn vip_field(e: (String, JsonValue)) -> bool {
    ||| mentions_vip(e.0@)
    ||| (contains_seq(text::lower_spec(e.0@), "priority"@) && e.1.scalar == crate::models::JsonScalar::Bool(true))
    ||| names_vip(e.1)
}

/// Is a channel a VIP one: with VIP sorting on, a DM with a VIP or a channel
/// whose newest message is a VIP's; or Slack's metadata says so.
pub open spec fn is_vip_spec(ws: Workspace, c: Channel) -> bool {
    let by_people = ws.priority_sidebar_section && ws.vip_users@.len() > 0 && if c.is_im {
        match labels::dm_user_id_spec(c) {
            Some(u) => keyed::listed(ws.vip_users@, u),
            None => false,
        }
    } else {
        match latest_author_spec(ws.messages@, c.id@) {
            Some(u) => keyed::listed(ws.vip_users@, u),
            None => false,
        }
    };
    by_people || exists|i: int| 0 <= i < c.extra@.len() && #[trigger] vip_field(c.extra@[i])
}

/// How recently a channel saw activity: its newest message or Slack's
/// update time, whichever is later (seconds).
pub open spec fn recency_spec(m: Seq<(String, ChannelMessages)>, c: Channel) -> u64 {
    let seen: u64 = match keyed::get(m, c.id@) {
        Some(cm) => match crate::timeline::latest_of(cm.messages@, cm.pending@, false) {
            Some(ts) => crate::ts::ts_key_spec(ts@).0,
            None => 0,
        },
        None => 0,
    };
    let upd: u64 = match c.updated {
        Some(u) => u,
        None => 0,
    };
    if seen >= upd {
        seen
    } else {
        upd
    }
}

/// The unread badge of a channel: its timeline's counters when loaded,
/// else Slack's counters, at least one when the channel is marked unread.
pub open spec fn unread_total_spec(m: Seq<(String, ChannelMessages)>, c: Channel) -> u32 {
    match keyed::get(m, c.id@) {
        Some(cm) => if cm.mention_count >= cm.unread_count {
            cm.mention_count
        } else {
            cm.unread_count
        },
        None => {
            let count: u32 = match or_opt(c.mention_count, or_opt(c.unread_count, c.unread_count_display)) {
                Some(n) => n,
                None => 0,
            };
            if count == 0 && c.has_unreads {
                1
            } else {
                count
            }
        },
    }
}

/// A message's author as shown: a person's name unless a bot sent it, else
/// the message's username, the bot's name, the user's name, the bot id, or
/// "unknown".
pub open spec fn author_name_spec(ws: Workspace, msg: crate::models::Message) -> Seq<char> {
    if msg.user is Some && msg.bot_profile is None && msg.bot_id is None {
        labels::display_name_spec(keyed::get(ws.users@, msg.user->0@), msg.user->0@)
    } else if text::ne(msg.username) is Some {
        text::ne(msg.username)->0
    } else if (match msg.bot_profile {
        Some(p) => text::ne(p.name) is Some,
        None => false,
    }) {
        text::ne(msg.bot_profile->0.name)->0
    } else if msg.user is Some {
        labels::display_name_spec(keyed::get(ws.users@, msg.user->0@), msg.user->0@)
    } else if msg.bot_id is Some && text::trim_spec(msg.bot_id->0@).len() > 0 {
        msg.bot_id->0@
    } else {
        "unknown"@
    }
}

/// The avatar URL of a user, from their profile.
pub open spec fn avatar_spec(ws: Workspace, user: Seq<char>) -> Option<Seq<char>> {
    match keyed::get(ws.users@, user) {
        Some(u) => match u.profile {
            Some(p) => labels::first_ne(labels::avatar_candidates(p)),
            None => None,
        },
        None => None,
    }
}

/// `s` without its leading `#` characters.
pub open spec fn strip_hashes(s: Seq<char>) -> Seq<char> {
    s.skip(text::first_where(s, |c: char| c != '#') as int)
}

/// How a DM is labelled: the other person's name, the members of a group
/// DM, else the channel label without `#`.
pub open spec fn dm_label_spec(ws: Workspace, c: Channel) -> Seq<char> {
    if c.is_im && labels::dm_user_id_spec(c) is Some {
        let u = labels::dm_user_id_spec(c)->0;
        labels::display_name_spec(keyed::get(ws.users@, u), u)
    } else if c.is_mpim && c.name is Some && crate::mpdm::mpdm_name_label_spec(c.name->0@) is Some {
        crate::mpdm::mpdm_name_label_spec(c.name->0@)->0
    } else {
        strip_hashes(labels::channel_label_spec(c))
    }
}

/// The name a channel is listed under.
pub open spec fn channel_display_name_spec(ws: Workspace, c: Channel) -> Seq<char> {
    if c.is_im || c.is_mpim {
        dm_label_spec(ws, c)
    } else {
        labels::channel_name_spec(c)
    }
}

/// The newest message with a timestamp.
fn latest_message(s: &Vec<crate::models::Message>) -> (r: Option<&crate::models::Message>)
    ensures
        match r {
            Some(m) => latest_msg(s@) == Some(*m),
            None => latest_msg(s@) is None,
        },
{
    let mut best: Option<&crate::models::Message> = None;
    for i in 0..s.len()
        invariant
            match best {
                Some(m) => latest_msg(s@.take(i as int)) == Some(*m) && m.ts is Some,
                None => latest_msg(s@.take(i as int)) is None,
            },
    {
        assert(s@.take(i + 1).drop_last() =~= s@.take(i as int));
        assert(s@.take(i + 1).last() == s@[i as int]);
        match &s[i].ts {
            Some(t) => {
                let take = match best {
                    None => true,
                    Some(p) => match &p.ts {
                        Some(pt) => crate::timeline::ts_key_le(pt.as_str(), t.as_str()),
                        None => true,
                    },
                };
                if take {
                    best = Some(&s[i]);
                }
            },
            None => {},
        }
    }
    assert(s@.take(s.len() as int) =~= s@);
    best
}

/// `s` without its leading `#` characters.
fn strip_leading_hashes(s: &str) -> (r: &str)
    ensures
        r@ == strip_hashes(s@),
{
    let n = s.unicode_len();
    let mut i: usize = 0;
    while i < n && s.get_char(i) == '#'
        invariant
            n == s@.len(),
            i <= n,
            forall|j: int| 0 <= j < i ==> s@[j] == '#',
        decreases n - i,
    {
        i = i + 1;
    }
    proof {
        text::lemma_first_where(s@, |c: char| c != '#', i as int);
    }
    text::substring_from(s, i)
}

impl Workspace {
    /// Is a channel starred: by its flag, by the starred list, or by one of
    /// the star flags in its extra fields.
    pub fn is_starred_channel(&self, channel: &Channel) -> (r: bool)
        ensures
            r == (channel.is_starred || keyed::listed(self.starred_order@, channel.id@) || extra_star_flag(
                channel.extra@,
            )),
    {
        if channel.is_starred || keyed::is_listed(&self.starred_order, channel.id.as_str()) {
            return true;
        }
        let v = match crate::models::get(&channel.extra, "is_starred") {
            Some(v) => Some(v),
            None => match crate::models::get(&channel.extra, "starred") {
                Some(v) => Some(v),
                None => crate::models::get(&channel.extra, "is_favorite"),
            },
        };
        match v {
            Some(j) => match &j.scalar {
                crate::models::JsonScalar::Bool(b) => *b,
                _ => false,
            },
            None => false,
        }
    }

    /// How recently a channel saw activity, in seconds.
    pub fn channel_recency(&self, channel: &Channel) -> (r: u64)
        ensures
            r == recency_spec(self.messages@, *channel),
    {
        let seen: u64 = match keyed::get_ref(&self.messages, channel.id.as_str()) {
            Some(cm) => match cm.latest_ts() {
                Some(ts) => crate::ts::ts_key(ts.as_str()).0,
                None => 0,
            },
            None => 0,
        };
        let upd: u64 = match channel.updated {
            Some(u) => u,
            None => 0,
        };
        if seen >= upd {
            seen
        } else {
            upd
        }
    }

    /// The unread badge count of a channel.
    pub fn unread_total(&self, channel: &Channel) -> (r: u32)
        ensures
            r == unread_total_spec(self.messages@, *channel),
    {
        match keyed::get_ref(&self.messages, channel.id.as_str()) {
            Some(cm) => if cm.mention_count >= cm.unread_count {
                cm.mention_count
            } else {
                cm.unread_count
            },
            None => {
                let count: u32 = match channel.mention_count {
                    Some(n) => n,
                    None => match channel.unread_count {
                        Some(n) => n,
                        None => match channel.unread_count_display {
                            Some(n) => n,
                            None => 0,
                        },
                    },
                };
                if count == 0 && channel.has_unreads {
                    1
                } else {
                    count
                }
            },
        }
    }

    /// The author of a message as shown.
    pub fn message_author_name(&self, msg: &crate::models::Message) -> (r: String)
        ensures
            r@ == author_name_spec(*self, *msg),
    {
        message_author_name(self, msg)
    }

    /// The avatar of a message: its cache key and image URL.
    pub fn message_avatar(&self, msg: &crate::models::Message) -> (r: (Option<String>, Option<String>))
        ensures
            avatar_pair_ok(*self, *msg, r),
    {
        message_avatar(self, msg)
    }
}

/// Who wrote the newest message of a channel.
fn latest_author<'a>(ws: &'a Workspace, channel_id: &str) -> (r: Option<&'a str>)
    ensures
        text::str_opt(r) == latest_author_spec(ws.messages@, channel_id@),
{
    let cm = match keyed::get_ref(&ws.messages, channel_id) {
        Some(cm) => cm,
        None => return None,
    };
    match latest_message(&cm.messages) {
        Some(m) => match &m.user {
            Some(u) => Some(u.as_str()),
            None => None,
        },
        None => None,
    }
}

/// Is a channel a VIP channel?
pub fn is_vip_channel(ws: &Workspace, c: &Channel) -> (r: bool)
    ensures
        r == is_vip_spec(*ws, *c),
{
    if ws.priority_sidebar_section && ws.vip_users.len() > 0 {
        if c.is_im {
            match labels::dm_user_id(c) {
                Some(user) => {
                    if keyed::is_listed(&ws.vip_users, user) {
                        return true;
                    }
                },
                None => {},
            }
        } else {
            match latest_author(ws, c.id.as_str()) {
                Some(user) => {
                    if keyed::is_listed(&ws.vip_users, user) {
                        return true;
                    }
                },
                None => {},
            }
        }
    }
    let mut i: usize = 0;
    while i < c.extra.len()
        invariant
            i <= c.extra@.len(),
            forall|j: int| 0 <= j < i ==> !#[trigger] vip_field(c.extra@[j]),
        decreases c.extra.len() - i,
    {
        let key = text::to_chars(c.extra[i].0.as_str());
        let low = text::lower_chars(key.as_slice());
        let vip = text::to_chars("vip");
        let priority = text::to_chars("priority");
        proof {
            reveal_strlit("vip");
            reveal_strlit("priority");
        }
        let flag = match &c.extra[i].1.scalar {
            crate::models::JsonScalar::Bool(b) => *b,
            _ => false,
        };
        if chars_contain(&low, &vip) || (chars_contain(&low, &priority) && flag) || value_names_vip(&c.extra[i].1) {
            assert(vip_field(c.extra@[i as int]));
            return true;
        }
        i = i + 1;
    }
    false
}

/// The author of a message as shown.
pub fn message_author_name(ws: &Workspace, msg: &crate::models::Message) -> (r: String)
    ensures
        r@ == author_name_spec(*ws, *msg),
{
    if msg.bot_profile.is_none() && msg.bot_id.is_none() {
        match &msg.user {
            Some(user) => return ws.display_name(user.as_str()),
            None => {},
        }
    }
    match text::ne_field(&msg.username) {
        Some(name) => return text::owned(name),
        None => {},
    }
    match &msg.bot_profile {
        Some(p) => match text::ne_field(&p.name) {
            Some(name) => return text::owned(name),
            None => {},
        },
        None => {},
    }
    match &msg.user {
        Some(user) => return ws.display_name(user.as_str()),
        None => {},
    }
    proof {
        reveal_strlit("unknown");
    }
    match &msg.bot_id {
        Some(id) => if !text::trim(id.as_str()).is_empty() {
            return id.clone();
        },
        None => {},
    }
    text::owned("unknown")
}

/// What `message_avatar` returns: a person's avatar unless a bot sent the
/// message, else the bot's avatar, else the user's avatar, else nothing.
pub open spec fn avatar_pair_ok(ws: Workspace, msg: crate::models::Message, r: (Option<String>, Option<String>)) -> bool {
    if msg.user is Some && msg.bot_profile is None && msg.bot_id is None {
        text::string_opt(r.0) == Some(msg.user->0@) && text::string_opt(r.1) == avatar_spec(ws, msg.user->0@)
    } else if labels::bot_source(msg) is Some && labels::bot_icon(msg) is Some {
        text::string_opt(r.1) == labels::bot_icon(msg) && text::string_opt(r.0) == Some(
            labels::bot_avatar_key(labels::bot_source(msg)->0, labels::bot_icon(msg)->0),
        )
    } else if msg.user is Some {
        text::string_opt(r.0) == Some(msg.user->0@) && text::string_opt(r.1) == avatar_spec(ws, msg.user->0@)
    } else {
        r.0 is None && r.1 is None
    }
}

/// The avatar of a message: its cache key and image URL.
pub fn message_avatar(ws: &Workspace, msg: &crate::models::Message) -> (r: (Option<String>, Option<String>))
    ensures
        avatar_pair_ok(*ws, *msg, r),
{
    if msg.bot_profile.is_none() && msg.bot_id.is_none() {
        match &msg.user {
            Some(user) => return (Some(user.clone()), ws.avatar_url(user.as_str())),
            None => {},
        }
    }
    match labels::message_bot_avatar(msg) {
        Some((key, url)) => return (Some(key), Some(url)),
        None => {},
    }
    match &msg.user {
        Some(user) => (Some(user.clone()), ws.avatar_url(user.as_str())),
        None => (None, None),
    }
}

/// How a DM is labelled.
pub fn dm_label(ws: &Workspace, c: &Channel) -> (r: String)
    ensures
        r@ == dm_label_spec(*ws, *c),
{
    if c.is_im {
        match labels::dm_user_id(c) {
            Some(user) => return ws.display_name(user),
            None => {},
        }
    }
    if c.is_mpim {
        match &c.name {
            Some(n) => match crate::mpdm::mpdm_name_label(n.as_str()) {
                Some(name) => return name,
                None => {},
            },
            None => {},
        }
    }
    let label = labels::channel_label(c);
    text::owned(strip_leading_hashes(label.as_str()))
}

/// The name a channel is listed under.
pub fn channel_display_name(ws: &Workspace, c: &Channel) -> (r: String)
    ensures
        r@ == channel_display_name_spec(*ws, *c),
{
    if c.is_im || c.is_mpim {
        dm_label(ws, c)
    } else {
        labels::channel_name(c)
    }
}


// ---------------------------------------------------------------------------
// Laws
// ---------------------------------------------------------------------------

proof fn lemma_without_id(ids: Seq<String>, id: Seq<char>)
    ensures
        forall|i: int| 0 <= i < without_id(ids, id).len() ==> (#[trigger] without_id(ids, id)[i])@ != id,
        forall|x: Seq<char>| x != id ==> (keyed::listed(ids, x) <==> keyed::listed(without_id(ids, id), x)),
        without_id(ids, id).len() <= ids.len(),
    decreases ids.len(),
{
    if ids.len() > 0 {
        lemma_without_id(ids.drop_last(), id);
        let prev = without_id(ids.drop_last(), id);
        assert forall|x: Seq<char>| x != id implies (keyed::listed(ids, x) <==> keyed::listed(without_id(ids, id), x)) by {
            if keyed::listed(ids, x) {
                let j = choose|j: int| 0 <= j < ids.len() && (#[trigger] ids[j])@ == x;
                if j < ids.len() - 1 {
                    assert(ids.drop_last()[j] == ids[j]);
                    assert(keyed::listed(ids.drop_last(), x));
                    let k = choose|k: int| 0 <= k < prev.len() && (#[trigger] prev[k])@ == x;
                    assert(without_id(ids, id)[k] == prev[k]);
                } else {
                    assert(without_id(ids, id)[prev.len() as int] == ids.last());
                }
            }
            if keyed::listed(without_id(ids, id), x) {
                let k = choose|k: int| 0 <= k < without_id(ids, id).len() && (#[trigger] without_id(ids, id)[k])@ == x;
                if k < prev.len() {
                    assert(without_id(ids, id)[k] == prev[k]);
                    assert(keyed::listed(prev, x));
                    assert(keyed::listed(ids.drop_last(), x));
                    let j = choose|j: int| 0 <= j < ids.drop_last().len() && (#[trigger] ids.drop_last()[j])@ == x;
                    assert(ids[j] == ids.drop_last()[j]);
                } else {
                    assert(ids[ids.len() - 1]@ == x);
                }
            }
        }
    }
}

/// Visiting a channel puts it first in the recent list, keeps every other
/// recent channel that fits in the list, and lists the channel only once.
pub proof fn law_touch_recent(recent: Seq<String>, id: String)
    ensures
        touched(recent, id).len() >= 1,
        touched(recent, id)[0] == id,
        touched(recent, id).len() <= RECENT_CHANNELS_MAX,
        forall|i: int| 1 <= i < touched(recent, id).len() ==> (#[trigger] touched(recent, id)[i])@ != id@,
        without_id(recent, id@).len() < RECENT_CHANNELS_MAX ==> forall|x: Seq<char>|
            keyed::listed(recent, x) ==> keyed::listed(touched(recent, id), x),
{
    lemma_without_id(recent, id@);
    let w = without_id(recent, id@);
    let s = seq![id] + w;
    assert forall|i: int| 1 <= i < touched(recent, id).len() implies (#[trigger] touched(recent, id)[i])@ != id@ by {
        assert(touched(recent, id)[i] == s[i]);
        assert(s[i] == w[i - 1]);
    }
    if w.len() < RECENT_CHANNELS_MAX {
        assert(touched(recent, id) == s);
        assert forall|x: Seq<char>| keyed::listed(recent, x) implies keyed::listed(touched(recent, id), x) by {
            if x == id@ {
                assert(s[0]@ == x);
            } else {
                let k = choose|k: int| 0 <= k < w.len() && (#[trigger] w[k])@ == x;
                assert(s[k + 1] == w[k]);
            }
        }
    }
}

/// A stored value reads back, other keys read as before, and a removed key
/// reads as absent (tables with one entry per key).
pub proof fn law_table_read_after_write<V>(t: Seq<(String, V)>, k: String, v: V, other: Seq<char>)
    requires
        keyed::unique_keys(t),
    ensures
        keyed::get(keyed::put(t, k, v), k@) == Some(v),
        other != k@ ==> keyed::get(keyed::put(t, k, v), other) == keyed::get(t, other),
        keyed::unique_keys(keyed::put(t, k, v)),
        keyed::get(keyed::del(t, k@), k@) is None,
        other != k@ ==> keyed::get(keyed::del(t, k@), other) == keyed::get(t, other),
        keyed::unique_keys(keyed::del(t, k@)),
{
    keyed::lemma_put(t, k, v);
    keyed::lemma_del(t, k@);
}

/// An active huddle is tracked under its channel; ending it clears the
/// channel; an ending frame for another room leaves the tracked one alone.
pub proof fn law_huddles(h: Seq<(String, Room)>, room: Room, other: Room)
    requires
        keyed::unique_keys(h),
        room.channels@.len() > 0,
        !room.has_ended,
        room.participants@.len() > 0,
        other.channels@.len() > 0,
        other.channels@[0]@ == room.channels@[0]@,
        other.id@ != room.id@,
        other.has_ended || other.participants@.len() == 0,
    ensures
        roomed(h, room).1,
        keyed::get(roomed(h, room).0, room.channels@[0]@) == Some(room),
        !roomed(roomed(h, room).0, other).1,
        roomed(roomed(h, room).0, other).0 == roomed(h, room).0,
        ({
            let ended = Room { has_ended: true, ..room };
            let after = roomed(roomed(h, room).0, ended);
            after.1 && keyed::get(after.0, room.channels@[0]@) is None
        }),
{
    let c = room.channels@[0];
    keyed::lemma_put(h, c, room);
    let h1 = keyed::put(h, c, room);
    keyed::lemma_del(h1, c@);
}

/// Presence recorded for a user is what a DM with that user shows.
pub proof fn law_presence_read_back(p: Seq<(String, Presence)>, user: String, presence: Presence, c: Channel)
    requires
        user@.len() > 0,
        c.is_im,
        labels::dm_user_id_spec(c) == Some(user@),
    ensures
        presence_for_channel_spec(keyed::put(p, user, presence), c) == presence,
{
    keyed::lemma_put(p, user, presence);
}

/// A channel Slack marks unread shows at least one unread message, and the
/// counters Slack reports are the ones shown.
pub proof fn law_read_state(cm: TimelineModel, c: ChannelModel)
    ensures
        c.has_unreads ==> read_state(cm, c).unread_count >= 1 || read_state(cm, c).mention_count >= 1,
        c.mention_count is Some ==> read_state(cm, c).mention_count == c.mention_count->0,
        c.unread_count is Some && c.unread_count->0 > 0 ==> read_state(cm, c).unread_count == c.unread_count->0,
        c.last_read is Some ==> read_state(cm, c).last_read == c.last_read,
        read_state(cm, c).messages == cm.messages,
        read_state(cm, c).pending == cm.pending,
{
}

/// A later description never clears a flag, never replaces a name with a
/// blank one, and keeps every extra field key.
pub proof fn law_merge_accumulates(e: ChannelModel, u: ChannelModel)
    ensures
        e.is_starred ==> merged_metadata(e, u).is_starred,
        e.is_im ==> merged_metadata(e, u).is_im,
        e.is_archived ==> merged_metadata(e, u).is_archived,
        e.has_unreads ==> merged_metadata(e, u).has_unreads,
        (u.name is None || text::trim_spec(u.name->0@).len() == 0) ==> merged_metadata(e, u).name == e.name,
        merged_metadata(e, u).id == e.id,
        forall|k: Seq<char>| keyed::has_key(e.extra, k) || keyed::has_key(u.extra, k) ==> #[trigger] keyed::has_key(
            merged_metadata(e, u).extra,
            k,
        ),
{
    assert forall|k: Seq<char>| keyed::has_key(e.extra, k) || keyed::has_key(u.extra, k) implies #[trigger] keyed::has_key(
        merged_metadata(e, u).extra,
        k,
    ) by {
        lemma_extend_keeps(e.extra, u.extra, k);
    }
}

proof fn lemma_keys_not_in_keeps<V>(a: Seq<(String, V)>, b: Seq<(String, V)>, k: Seq<char>)
    requires
        keyed::has_key(a, k),
        !keyed::has_key(b, k),
    ensures
        keyed::has_key(keyed::keys_not_in(a, b), k),
    decreases a.len(),
{
    keyed::lemma_key_pos_facts(a, k);
    let r = keyed::keys_not_in(a, b);
    if a[0].0@ == k {
        assert(r[0] == a[0]);
        lemma_has_key_at(r, k, 0);
    } else {
        assert(keyed::has_key(a.drop_first(), k)) by {
            let p = keyed::key_pos(a, k) as int;
            assert(a.drop_first()[p - 1] == a[p]);
            lemma_has_key_at(a.drop_first(), k, p - 1);
        }
        lemma_keys_not_in_keeps(a.drop_first(), b, k);
        let rest = keyed::keys_not_in(a.drop_first(), b);
        keyed::lemma_key_pos_facts(rest, k);
        let q = keyed::key_pos(rest, k) as int;
        if keyed::has_key(b, a[0].0@) {
            assert(r == rest);
        } else {
            assert(r[q + 1] == rest[q]);
            lemma_has_key_at(r, k, q + 1);
        }
    }
}

proof fn lemma_extend_keeps<V>(e: Seq<(String, V)>, u: Seq<(String, V)>, k: Seq<char>)
    requires
        keyed::has_key(e, k) || keyed::has_key(u, k),
    ensures
        keyed::has_key(keyed::extend(e, u), k),
{
    let r = keyed::extend(e, u);
    if keyed::has_key(u, k) {
        keyed::lemma_key_pos_facts(u, k);
        let p = keyed::key_pos(u, k) as int;
        assert(r[p] == u[p]);
        lemma_has_key_at(r, k, p);
    } else {
        lemma_keys_not_in_keeps(e, u, k);
        let rest = keyed::keys_not_in(e, u);
        keyed::lemma_key_pos_facts(rest, k);
        let q = keyed::key_pos(rest, k) as int;
        assert(r[u.len() + q] == rest[q]);
        lemma_has_key_at(r, k, u.len() + q);
    }
}

/// The VIP and hidden-section lists hold each non-empty word once.
pub proof fn law_comma_words_distinct(s: Seq<char>)
    ensures
        word_set(comma_pieces(s)).no_duplicates(),
        forall|i: int| 0 <= i < word_set(comma_pieces(s)).len() ==> (#[trigger] word_set(comma_pieces(s))[i]).len() > 0,
{
    lemma_word_set(comma_pieces(s));
}

proof fn lemma_word_set(p: Seq<Seq<char>>)
    ensures
        word_set(p).no_duplicates(),
        forall|i: int| 0 <= i < word_set(p).len() ==> (#[trigger] word_set(p)[i]).len() > 0,
    decreases p.len(),
{
    if p.len() > 0 {
        lemma_word_set(p.drop_last());
        let prev = word_set(p.drop_last());
        if !(p.last().len() == 0 || prev.contains(p.last())) {
            let w = prev.push(p.last());
            assert forall|i: int, j: int| 0 <= i < w.len() && 0 <= j < w.len() && i != j implies w[i] != w[j] by {
                if i < prev.len() && j < prev.len() {
                } else if i < prev.len() {
                    assert(w[i] == prev[i]);
                } else {
                    assert(w[j] == prev[j]);
                }
            }
            assert forall|i: int| 0 <= i < w.len() implies (#[trigger] w[i]).len() > 0 by {
                if i < prev.len() {
                    assert(w[i] == prev[i]);
                }
            }
        }
    }
}

/// A channel's unread badge. With its timeline loaded it is the larger of
/// the timeline's mention and unread counts. Without one, Slack's mention
/// count comes first, then its unread counts; and a channel Slack marks as
/// having unreads shows at least one, while a channel with no count and no
/// such mark shows none.
pub proof fn law_unread_total(m: Seq<(String, ChannelMessages)>, c: Channel)
    ensures
        keyed::get(m, c.id@) matches Some(cm) ==> {
            &&& unread_total_spec(m, c) >= cm.mention_count
            &&& unread_total_spec(m, c) >= cm.unread_count
            &&& (unread_total_spec(m, c) == cm.mention_count || unread_total_spec(m, c) == cm.unread_count)
        },
        keyed::get(m, c.id@) is None && c.has_unreads ==> unread_total_spec(m, c) >= 1,
        keyed::get(m, c.id@) is None && c.mention_count is Some && c.mention_count->0 > 0 ==> unread_total_spec(m, c)
            == c.mention_count->0,
        keyed::get(m, c.id@) is None && c.mention_count is None && c.unread_count is Some && c.unread_count->0 > 0
            ==> unread_total_spec(m, c) == c.unread_count->0,
        keyed::get(m, c.id@) is None && !c.has_unreads && c.mention_count is None && c.unread_count is None
            && c.unread_count_display is None ==> unread_total_spec(m, c) == 0,
{
}

/// A channel's recency is the later of the seconds of its newest loaded
/// message (0 without one) and Slack's update time (0 without one): at least
/// each of them, and equal to one of them.
pub proof fn law_recency_is_the_later_time(m: Seq<(String, ChannelMessages)>, c: Channel)
    ensures
        ({
            let seen: int = match keyed::get(m, c.id@) {
                Some(cm) => match crate::timeline::latest_of(cm.messages@, cm.pending@, false) {
                    Some(ts) => crate::ts::ts_key_spec(ts@).0 as int,
                    None => 0,
                },
                None => 0,
            };
            let upd: int = match c.updated {
                Some(u) => u as int,
                None => 0,
            };
            &&& recency_spec(m, c) >= seen
            &&& recency_spec(m, c) >= upd
            &&& (recency_spec(m, c) == seen || recency_spec(m, c) == upd)
        }),
{
}

} // verus!

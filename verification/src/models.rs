//! Slack API data as plain values.
//!
//! JSON values that Slack sends without a fixed schema (extra fields, block
//! kit blocks) are held as `JsonValue`: the value's JSON text together with
//! what the logic reads of it (its scalar content and, for an object, its
//! members' scalar contents).

use vstd::prelude::*;

verus! {

pub type TeamId = String;

pub type ChannelId = String;

pub type UserId = String;

pub type MessageTs = String;

/// The shallow content of a JSON value.
#[derive(Debug, Clone, PartialEq, Eq, Default)]
pub enum JsonScalar {
    #[default]
    Null,
    Bool(bool),
    /// A number, with its value when it is a non-negative integer that fits in 64 bits.
    Number(Option<u64>),
    Str(String),
    Array,
    Object,
}

/// A JSON value: its JSON text, its shallow content, and its elements (for
/// an array) or members (for an object).
#[derive(Debug, Default)]
pub struct JsonValue {
    pub text: String,
    pub scalar: JsonScalar,
    /// An array's elements, in order.
    pub items: Vec<JsonValue>,
    /// An object's members, in key order.
    pub members: Vec<(String, JsonValue)>,
}

impl Clone for JsonValue {
    fn clone(&self) -> (r: Self)
        ensures
            json_same(r, *self),
    {
        copy_json(self)
    }
}

/// Model of a `JsonValue` as the library's logic reads it: its text, its
/// shallow content and its members' shallow contents. The elements and the
/// members' nested values are not part of it; `json_same` compares two
/// values in full.
pub struct JsonValueModel {
    pub text: String,
    pub scalar: JsonScalar,
    pub fields: Seq<(String, JsonScalar)>,
}

/// The shallow contents of an object's members.
pub open spec fn scalars(m: Seq<(String, JsonValue)>) -> Seq<(String, JsonScalar)> {
    m.map_values(|p: (String, JsonValue)| (p.0, p.1.scalar))
}

impl View for JsonValue {
    type V = JsonValueModel;

    open spec fn view(&self) -> JsonValueModel {
        JsonValueModel { text: self.text, scalar: self.scalar, fields: scalars(self.members@) }
    }
}

/// A JSON object's members, in key order.
pub type JsonMap = Vec<(String, JsonValue)>;

pub open spec fn map_model(m: Seq<(String, JsonValue)>) -> Seq<(String, JsonValueModel)> {
    m.map_values(|p: (String, JsonValue)| (p.0, p.1@))
}

/// The string content of a scalar, if it is a string.
pub open spec fn scalar_str(s: JsonScalar) -> Option<Seq<char>> {
    match s {
        JsonScalar::Str(t) => Some(t@),
        _ => None,
    }
}

/// The first value stored under `key`.
pub open spec fn lookup(m: Seq<(String, JsonValue)>, key: Seq<char>) -> Option<JsonValue>
    decreases m.len(),
{
    if m.len() == 0 {
        None
    } else if m[0].0@ == key {
        Some(m[0].1)
    } else {
        lookup(m.drop_first(), key)
    }
}

/// The first scalar stored under `key` in an object's members.
pub open spec fn lookup_field(m: Seq<(String, JsonScalar)>, key: Seq<char>) -> Option<JsonScalar>
    decreases m.len(),
{
    if m.len() == 0 {
        None
    } else if m[0].0@ == key {
        Some(m[0].1)
    } else {
        lookup_field(m.drop_first(), key)
    }
}

/// `map.get(key).and_then(Value::as_str)`.
pub open spec fn lookup_str(m: Seq<(String, JsonValue)>, key: Seq<char>) -> Option<Seq<char>> {
    match lookup(m, key) {
        Some(v) => scalar_str(v.scalar),
        None => None,
    }
}

/// `object.get(key).and_then(Value::as_str)`.
pub open spec fn field_str(m: Seq<(String, JsonScalar)>, key: Seq<char>) -> Option<Seq<char>> {
    match lookup_field(m, key) {
        Some(v) => scalar_str(v),
        None => None,
    }
}

#[derive(Debug, Clone, Default)]
pub struct Channel {
    pub id: ChannelId,
    pub name: Option<String>,
    pub is_channel: bool,
    pub is_group: bool,
    pub is_im: bool,
    pub is_mpim: bool,
    pub is_private: bool,
    pub is_archived: bool,
    pub is_starred: bool,
    pub is_ext_shared: bool,
    pub updated: Option<u64>,
    pub user: Option<UserId>,
    pub unread_count: Option<u32>,
    pub unread_count_display: Option<u32>,
    pub mention_count: Option<u32>,
    pub has_unreads: bool,
    pub last_read: Option<MessageTs>,
    pub previous_names: Vec<String>,
    pub extra: JsonMap,
}

/// Model of a `Channel`.
pub struct ChannelModel {
    pub id: ChannelId,
    pub name: Option<String>,
    pub is_channel: bool,
    pub is_group: bool,
    pub is_im: bool,
    pub is_mpim: bool,
    pub is_private: bool,
    pub is_archived: bool,
    pub is_starred: bool,
    pub is_ext_shared: bool,
    pub updated: Option<u64>,
    pub user: Option<UserId>,
    pub unread_count: Option<u32>,
    pub unread_count_display: Option<u32>,
    pub mention_count: Option<u32>,
    pub has_unreads: bool,
    pub last_read: Option<MessageTs>,
    pub previous_names: Seq<String>,
    pub extra: Seq<(String, JsonValueModel)>,
}

impl View for Channel {
    type V = ChannelModel;

    open spec fn view(&self) -> ChannelModel {
        ChannelModel {
            id: self.id,
            name: self.name,
            is_channel: self.is_channel,
            is_group: self.is_group,
            is_im: self.is_im,
            is_mpim: self.is_mpim,
            is_private: self.is_private,
            is_archived: self.is_archived,
            is_starred: self.is_starred,
            is_ext_shared: self.is_ext_shared,
            updated: self.updated,
            user: self.user,
            unread_count: self.unread_count,
            unread_count_display: self.unread_count_display,
            mention_count: self.mention_count,
            has_unreads: self.has_unreads,
            last_read: self.last_read,
            previous_names: self.previous_names@,
            extra: map_model(self.extra@),
        }
    }
}

/// A huddle/call "room" as delivered on `sh_room_*` realtime frames.
#[derive(Debug, Clone, Default)]
pub struct Room {
    pub id: String,
    pub call_family: Option<String>,
    pub channels: Vec<ChannelId>,
    pub created_by: Option<UserId>,
    pub date_start: Option<i64>,
    pub date_end: Option<i64>,
    pub has_ended: bool,
    pub huddle_link: Option<String>,
    pub participants: Vec<UserId>,
    pub participant_history: Vec<UserId>,
    pub media_backend_type: Option<String>,
    pub extra: JsonMap,
}

impl Room {
    /// The channel this huddle lives in (huddles are single-channel in practice).
    pub fn channel(&self) -> (r: Option<&ChannelId>)
        ensures
            r == (if self.channels@.len() > 0 {
                Some(&self.channels@[0])
            } else {
                None
            }),
    {
        if self.channels.len() > 0 {
            Some(&self.channels[0])
        } else {
            None
        }
    }

    /// A huddle is "active" while it has not ended.
    pub fn is_active(&self) -> (r: bool)
        ensures
            r == !self.has_ended,
    {
        !self.has_ended
    }
}

#[derive(Debug, Clone, Default)]
pub struct Team {
    pub id: TeamId,
    pub name: Option<String>,
    pub domain: Option<String>,
    pub url: Option<String>,
    pub enterprise_id: Option<String>,
    pub extra: JsonMap,
}

#[derive(Debug, Clone, Default)]
pub struct UserProfile {
    pub display_name: Option<String>,
    pub real_name: Option<String>,
    pub title: Option<String>,
    pub pronouns: Option<String>,
    pub email: Option<String>,
    pub phone: Option<String>,
    pub start_date: Option<String>,
    pub status_text: Option<String>,
    pub status_emoji: Option<String>,
    pub image_24: Option<String>,
    pub image_32: Option<String>,
    pub image_48: Option<String>,
    pub image_72: Option<String>,
    pub image_192: Option<String>,
    pub image_512: Option<String>,
    pub image_original: Option<String>,
    pub extra: JsonMap,
}

#[derive(Debug, Clone, Default)]
pub struct User {
    pub id: UserId,
    pub name: Option<String>,
    pub real_name: Option<String>,
    pub deleted: bool,
    pub is_bot: bool,
    pub profile: Option<UserProfile>,
    pub extra: JsonMap,
}

#[derive(Debug, Clone, Default)]
pub struct BootSelf {
    pub id: UserId,
    pub name: Option<String>,
    pub profile: Option<UserProfile>,
    pub extra: JsonMap,
}

/// What `client.userBoot` returns. Slack's per-channel priority scores are
/// fractional and are kept by the application, not here.
#[derive(Debug, Clone, Default)]
pub struct BootData {
    pub self_user: BootSelf,
    pub team: Option<Team>,
    pub channels: Vec<Channel>,
    pub ims: Vec<Channel>,
    pub groups: Vec<Channel>,
    pub mpims: Vec<Channel>,
    pub users: Vec<User>,
    pub starred: Vec<ChannelId>,
    pub prefs: BootPrefs,
    /// Slack's priority score of each channel, each as an integer that
    /// orders as the score does.
    pub channels_priority: Vec<(ChannelId, u64)>,
    pub extra: JsonMap,
}

#[derive(Debug, Clone, Default)]
pub struct BootPrefs {
    pub sidebar_behavior: Option<String>,
    pub priority_sidebar_section: bool,
    pub vip_users: Option<String>,
    pub channel_sections: Option<String>,
    pub team_channel_sections: Option<String>,
    pub hidden_user_group_sections: Option<String>,
    pub extra: JsonMap,
}

#[derive(Debug, Clone, Default)]
pub struct ApiResponse<T> {
    pub ok: bool,
    pub error: Option<String>,
    pub body: T,
}

#[derive(Debug, Clone, Default)]
pub struct ResponseMetadata {
    pub next_cursor: Option<String>,
    pub extra: JsonMap,
}

#[derive(Debug, Clone, Default)]
pub struct HistoryPage {
    pub messages: Vec<Message>,
    pub has_more: bool,
    pub unchanged_messages: Vec<MessageTs>,
    pub latest_updates: Vec<(MessageTs, String)>,
    pub pin_count: Option<u32>,
    pub response_metadata: Option<ResponseMetadata>,
    pub extra: JsonMap,
}

#[derive(Debug, Clone, Default)]
pub struct CountsPage {
    pub channels: Vec<Channel>,
    pub ims: Vec<Channel>,
    pub groups: Vec<Channel>,
    pub mpims: Vec<Channel>,
    pub activity_v2: Option<Vec<(String, u32)>>,
    pub extra: JsonMap,
}

#[derive(Debug, Clone, Default)]
pub struct SidebarDmsPage {
    pub ims: Vec<Channel>,
    pub mpdms: Vec<Channel>,
    pub extra: JsonMap,
}

#[derive(Debug, Clone, Default)]
pub struct ClientDmsPage {
    pub dms: Vec<DmEntry>,
    pub response_metadata: Option<ResponseMetadata>,
    pub extra: JsonMap,
}

#[derive(Debug, Clone, Default)]
pub struct DmEntry {
    pub id: ChannelId,
    pub latest: Option<MessageTs>,
    pub message: Option<Message>,
    pub channel: Option<Channel>,
    pub extra: JsonMap,
}

#[derive(Debug, Default)]
pub struct Message {
    pub user: Option<UserId>,
    pub bot_id: Option<String>,
    pub username: Option<String>,
    pub bot_profile: Option<BotProfile>,
    pub icons: Option<MessageIcons>,
    pub kind: Option<String>,
    pub subtype: Option<String>,
    pub ts: Option<MessageTs>,
    pub client_msg_id: Option<String>,
    pub text: Option<String>,
    pub team: Option<TeamId>,
    pub channel: Option<ChannelId>,
    pub thread_ts: Option<MessageTs>,
    pub parent_user_id: Option<UserId>,
    pub reply_count: Option<u32>,
    pub reply_users_count: Option<u32>,
    pub latest_reply: Option<MessageTs>,
    pub reply_users: Vec<UserId>,
    pub reactions: Vec<Reaction>,
    pub blocks: Vec<JsonValue>,
    pub files: Vec<File>,
    pub attachments: Vec<Attachment>,
    pub edited: Option<JsonValue>,
    pub message: Option<Box<Message>>,
    pub extra: JsonMap,
}

impl Clone for Message {
    fn clone(&self) -> (r: Self)
        ensures
            same_message(r, *self),
    {
        copy_message(self)
    }
}

/// Two messages agree on every field, nested envelope included, down to
/// every JSON value they carry.
pub open spec fn same_message(a: Message, b: Message) -> bool
    decreases a,
{
    &&& a.user == b.user
    &&& a.bot_id == b.bot_id
    &&& a.username == b.username
    &&& opt_bot_same(a.bot_profile, b.bot_profile)
    &&& opt_icons_same(a.icons, b.icons)
    &&& a.kind == b.kind
    &&& a.subtype == b.subtype
    &&& a.ts == b.ts
    &&& a.client_msg_id == b.client_msg_id
    &&& a.text == b.text
    &&& a.team == b.team
    &&& a.channel == b.channel
    &&& a.thread_ts == b.thread_ts
    &&& a.parent_user_id == b.parent_user_id
    &&& a.reply_count == b.reply_count
    &&& a.reply_users_count == b.reply_users_count
    &&& a.latest_reply == b.latest_reply
    &&& a.reply_users@ == b.reply_users@
    &&& a.reactions@.len() == b.reactions@.len()
    &&& (forall|k: int| 0 <= k < a.reactions@.len() ==> reaction_same(#[trigger] a.reactions@[k], b.reactions@[k]))
    &&& jsons_same(a.blocks@, b.blocks@)
    &&& a.files@.len() == b.files@.len()
    &&& (forall|k: int| 0 <= k < a.files@.len() ==> file_same(#[trigger] a.files@[k], b.files@[k]))
    &&& a.attachments@.len() == b.attachments@.len()
    &&& (forall|k: int| 0 <= k < a.attachments@.len() ==> attachment_same(#[trigger] a.attachments@[k], b.attachments@[k]))
    &&& opt_json_same(a.edited, b.edited)
    &&& match (a.message, b.message) {
        (Some(x), Some(y)) => same_message(*x, *y),
        (None, None) => true,
        _ => false,
    }
    &&& map_same(a.extra@, b.extra@)
}

/// A field-by-field copy of a message, nested envelope included.
pub fn copy_message(m: &Message) -> (r: Message)
    ensures
        same_message(r, *m),
    decreases m,
{
    let message = match &m.message {
        Some(inner) => Some(Box::new(copy_message(inner))),
        None => None,
    };
    Message {
        user: m.user.clone(),
        bot_id: m.bot_id.clone(),
        username: m.username.clone(),
        bot_profile: copy_opt_bot(&m.bot_profile),
        icons: copy_opt_icons(&m.icons),
        kind: m.kind.clone(),
        subtype: m.subtype.clone(),
        ts: m.ts.clone(),
        client_msg_id: m.client_msg_id.clone(),
        text: m.text.clone(),
        team: m.team.clone(),
        channel: m.channel.clone(),
        thread_ts: m.thread_ts.clone(),
        parent_user_id: m.parent_user_id.clone(),
        reply_count: m.reply_count,
        reply_users_count: m.reply_users_count,
        latest_reply: m.latest_reply.clone(),
        reply_users: m.reply_users.clone(),
        reactions: copy_reactions(&m.reactions),
        blocks: copy_jsons(&m.blocks),
        files: copy_files(&m.files),
        attachments: copy_attachments(&m.attachments),
        edited: copy_opt_json(&m.edited),
        message,
        extra: copy_map(&m.extra),
    }
}

#[derive(Debug, Clone, Default)]
pub struct BotProfile {
    pub id: Option<String>,
    pub name: Option<String>,
    pub user_id: Option<UserId>,
    pub icons: Option<MessageIcons>,
    pub extra: JsonMap,
}

#[derive(Debug, Clone, Default)]
pub struct MessageIcons {
    pub image_36: Option<String>,
    pub image_48: Option<String>,
    pub image_64: Option<String>,
    pub image_72: Option<String>,
    pub image_192: Option<String>,
    pub image_512: Option<String>,
    pub image_original: Option<String>,
    pub icon_url: Option<String>,
    pub extra: JsonMap,
}

#[derive(Debug, Clone, Default)]
pub struct Attachment {
    pub id: Option<u64>,
    pub service_name: Option<String>,
    pub service_icon: Option<String>,
    pub author_name: Option<String>,
    pub author_link: Option<String>,
    pub title: Option<String>,
    pub title_link: Option<String>,
    pub pretext: Option<String>,
    pub text: Option<String>,
    pub footer: Option<String>,
    pub color: Option<String>,
    pub image_url: Option<String>,
    pub thumb_url: Option<String>,
    pub from_url: Option<String>,
    pub original_url: Option<String>,
    pub fields: Vec<AttachmentField>,
    pub blocks: Vec<JsonValue>,
    pub extra: JsonMap,
}

#[derive(Debug, Clone, Default)]
pub struct AttachmentField {
    pub title: Option<String>,
    pub value: Option<String>,
    pub short: bool,
    pub extra: JsonMap,
}

#[derive(Debug, Clone, Default)]
pub struct SentMessage {
    pub channel: ChannelId,
    pub ts: MessageTs,
    pub message: Message,
}

#[derive(Debug, Clone, Default)]
pub struct Reaction {
    pub name: String,
    pub users: Vec<UserId>,
    pub count: u32,
    pub extra: JsonMap,
}

/// Model of a `Reaction`.
pub struct ReactionModel {
    pub name: Seq<char>,
    pub users: Seq<Seq<char>>,
    pub count: u32,
    pub extra: Seq<(String, JsonValueModel)>,
}

pub open spec fn strings_view(s: Seq<String>) -> Seq<Seq<char>> {
    s.map_values(|x: String| x@)
}

impl View for Reaction {
    type V = ReactionModel;

    open spec fn view(&self) -> ReactionModel {
        ReactionModel {
            name: self.name@,
            users: strings_view(self.users@),
            count: self.count,
            extra: map_model(self.extra@),
        }
    }
}

pub open spec fn reactions_view(s: Seq<Reaction>) -> Seq<ReactionModel> {
    s.map_values(|r: Reaction| r@)
}

#[derive(Debug, Clone, Default)]
pub struct File {
    pub id: Option<String>,
    pub name: Option<String>,
    pub title: Option<String>,
    pub mimetype: Option<String>,
    pub filetype: Option<String>,
    pub pretty_type: Option<String>,
    pub url_private: Option<String>,
    pub thumb_64: Option<String>,
    pub thumb_80: Option<String>,
    pub thumb_160: Option<String>,
    pub thumb_360: Option<String>,
    pub size: Option<u64>,
    pub is_external: Option<bool>,
    pub extra: JsonMap,
}

#[derive(Debug, Clone, Default)]
pub struct SearchMessagesPage {
    pub items: Vec<SearchItem>,
    pub pagination: Option<SearchPagination>,
    pub query: Option<String>,
    pub module: Option<String>,
    pub extra: JsonMap,
}

#[derive(Debug, Clone, Default)]
pub struct SearchItem {
    pub iid: Option<String>,
    pub team: Option<TeamId>,
    pub channel: Option<Channel>,
    pub messages: Vec<Message>,
    pub extra: JsonMap,
}

#[derive(Debug, Clone, Default)]
pub struct SearchPagination {
    pub page: Option<u32>,
    pub page_count: Option<u32>,
    pub per_page: Option<u32>,
    pub total_count: Option<u64>,
    pub extra: JsonMap,
}

#[derive(Debug, Clone, Default)]
pub struct SearchInlinePage {
    pub items: Vec<SearchInlineItem>,
    pub pagination: Option<SearchPagination>,
    pub query: Option<String>,
    pub extra: JsonMap,
}

#[derive(Debug, Clone, Default)]
pub struct SearchInlineItem {
    pub channel_id: Option<ChannelId>,
    pub iid: Option<String>,
    pub permalink: Option<String>,
    pub ts: Option<MessageTs>,
    pub user: Option<UserId>,
    pub extra: JsonMap,
}

#[derive(Debug, Clone, Default)]
pub struct OpenedConversation {
    pub channel: OpenedChannel,
}

#[derive(Debug, Clone, Default)]
pub struct OpenedChannel {
    pub id: ChannelId,
}

#[derive(Debug, Clone, Default)]
pub struct ChannelSectionsPage {
    pub channel_sections: Vec<ChannelSection>,
    pub extra: JsonMap,
}

#[derive(Debug, Clone, Default)]
pub struct ChannelSection {
    pub channel_section_id: String,
    pub name: String,
    /// "slack_connect" | "direct_messages" | "stars" | "channels" |
    /// "user_group" | "recent_apps" | "salesforce_records" | "agents" | "standard"
    pub kind: String,
    pub next_channel_section_id: Option<String>,
    pub is_hidden: bool,
    pub channel_ids_page: ChannelIdsPage,
    pub extra: JsonMap,
}

#[derive(Debug, Clone, Default)]
pub struct ChannelIdsPage {
    pub channel_ids: Vec<ChannelId>,
    pub extra: JsonMap,
}

#[derive(Debug, Clone, Default)]
pub struct EdgeResults<T> {
    pub ok: bool,
    pub results: Vec<T>,
    pub failed_ids: Vec<String>,
    pub extra: JsonMap,
}

#[derive(Debug, Clone, Default)]
pub struct Emoji {
    pub name: String,
    pub value: String,
    pub updated: Option<u64>,
    pub extra: JsonMap,
}

// ---------------------------------------------------------------------------
// Reading JSON members
// ---------------------------------------------------------------------------

/// `map.get(key)`: the first value stored under `key`.
pub fn get<'a>(m: &'a JsonMap, key: &str) -> (r: Option<&'a JsonValue>)
    ensures
        r == (match lookup(m@, key@) {
            Some(v) => Some(&v),
            None => None,
        }),
{
    let mut i: usize = 0;
    assert(m@.skip(0) =~= m@);
    while i < m.len()
        invariant
            i <= m@.len(),
            lookup(m@, key@) == lookup(m@.skip(i as int), key@),
        decreases m.len() - i,
    {
        let ghost rest = m@.skip(i as int);
        assert(rest.drop_first() =~= m@.skip(i + 1));
        if crate::text::str_eq(m[i].0.as_str(), key) {
            return Some(&m[i].1);
        }
        i = i + 1;
    }
    None
}

/// `map.get(key).and_then(Value::as_str)`.
pub fn get_str<'a>(m: &'a JsonMap, key: &str) -> (r: Option<&'a str>)
    ensures
        match r {
            Some(s) => lookup_str(m@, key@) == Some(s@),
            None => lookup_str(m@, key@) is None,
        },
{
    match get(m, key) {
        Some(v) => match &v.scalar {
            JsonScalar::Str(s) => Some(s.as_str()),
            _ => None,
        },
        None => None,
    }
}

/// `map.get(key).and_then(Value::as_bool)`.
pub fn get_bool(m: &JsonMap, key: &str) -> (r: Option<bool>)
    ensures
        r == (match lookup(m@, key@) {
            Some(v) => match v.scalar {
                JsonScalar::Bool(b) => Some(b),
                _ => None,
            },
            None => None,
        }),
{
    match get(m, key) {
        Some(v) => match &v.scalar {
            JsonScalar::Bool(b) => Some(*b),
            _ => None,
        },
        None => None,
    }
}

/// `object.get(key)`: the shallow content of the first member stored under `key`.
pub fn get_field<'a>(m: &'a JsonMap, key: &str) -> (r: Option<&'a JsonScalar>)
    ensures
        r == (match lookup_field(scalars(m@), key@) {
            Some(v) => Some(&v),
            None => None,
        }),
{
    let mut i: usize = 0;
    assert(scalars(m@).skip(0) =~= scalars(m@));
    while i < m.len()
        invariant
            i <= m@.len(),
            lookup_field(scalars(m@), key@) == lookup_field(scalars(m@).skip(i as int), key@),
        decreases m.len() - i,
    {
        let ghost rest = scalars(m@).skip(i as int);
        assert(rest.drop_first() =~= scalars(m@).skip(i + 1));
        assert(rest[0] == (m@[i as int].0, m@[i as int].1.scalar));
        if crate::text::str_eq(m[i].0.as_str(), key) {
            return Some(&m[i].1.scalar);
        }
        i = i + 1;
    }
    None
}

/// `object.get(key).and_then(Value::as_str)`.
pub fn get_field_str<'a>(m: &'a JsonMap, key: &str) -> (r: Option<&'a str>)
    ensures
        match r {
            Some(s) => field_str(scalars(m@), key@) == Some(s@),
            None => field_str(scalars(m@), key@) is None,
        },
{
    match get_field(m, key) {
        Some(JsonScalar::Str(s)) => Some(s.as_str()),
        _ => None,
    }
}

// ---------------------------------------------------------------------------
// Copies
// ---------------------------------------------------------------------------

/// A copy of a JSON scalar.
fn copy_scalar(s: &JsonScalar) -> (r: JsonScalar)
    ensures
        r == *s,
{
    match s {
        JsonScalar::Null => JsonScalar::Null,
        JsonScalar::Bool(b) => JsonScalar::Bool(*b),
        JsonScalar::Number(n) => JsonScalar::Number(*n),
        JsonScalar::Str(t) => JsonScalar::Str(t.clone()),
        JsonScalar::Array => JsonScalar::Array,
        JsonScalar::Object => JsonScalar::Object,
    }
}

/// Two JSON values hold the same text and content, down to every element
/// and member.
pub open spec fn json_same(a: JsonValue, b: JsonValue) -> bool
    decreases a,
{
    &&& a.text == b.text
    &&& a.scalar == b.scalar
    &&& a.items@.len() == b.items@.len()
    &&& forall|k: int| 0 <= k < a.items@.len() ==> json_same(#[trigger] a.items@[k], b.items@[k])
    &&& a.members@.len() == b.members@.len()
    &&& forall|k: int|
        0 <= k < a.members@.len() ==> (#[trigger] a.members@[k]).0 == b.members@[k].0 && json_same(
            a.members@[k].1,
            b.members@[k].1,
        )
}

/// A copy of a JSON value, elements and members included.
pub fn copy_json(v: &JsonValue) -> (r: JsonValue)
    ensures
        json_same(r, *v),
        r@ == v@,
    decreases v,
{
    let mut items: Vec<JsonValue> = Vec::new();
    for i in 0..v.items.len()
        invariant
            items@.len() == i,
            forall|k: int| 0 <= k < i ==> json_same(#[trigger] items@[k], v.items@[k]),
    {
        proof {
            assert(decreases_to!(*v => v.items@[i as int]));
        }
        items.push(copy_json(&v.items[i]));
    }
    let mut members: JsonMap = Vec::new();
    for i in 0..v.members.len()
        invariant
            members@.len() == i,
            forall|k: int| 0 <= k < i ==> (#[trigger] members@[k]).0 == v.members@[k].0 && members@[k].1.scalar == v.members@[k].1.scalar
                && json_same(members@[k].1, v.members@[k].1),
    {
        proof {
            assert(decreases_to!(*v => v.members@[i as int].1));
        }
        let c = copy_json(&v.members[i].1);
        members.push((v.members[i].0.clone(), c));
    }
    assert(scalars(members@) =~= scalars(v.members@));
    let r = JsonValue { text: v.text.clone(), scalar: copy_scalar(&v.scalar), items, members };
    assert forall|k: int| 0 <= k < r.items@.len() implies json_same(#[trigger] r.items@[k], v.items@[k]) by {}
    assert forall|k: int| 0 <= k < r.members@.len() implies (#[trigger] r.members@[k]).0 == v.members@[k].0
        && json_same(r.members@[k].1, v.members@[k].1) by {}
    r
}

/// A copy of a JSON object's members.
pub fn copy_map(m: &JsonMap) -> (r: JsonMap)
    ensures
        map_model(r@) == map_model(m@),
        map_same(r@, m@),
{
    let mut r: JsonMap = Vec::new();
    for i in 0..m.len()
        invariant
            r@.len() == i,
            forall|k: int| 0 <= k < i ==> (#[trigger] r@[k]).0 == m@[k].0 && r@[k].1@ == m@[k].1@ && json_same(r@[k].1, m@[k].1),
    {
        let v = copy_json(&m[i].1);
        r.push((m[i].0.clone(), v));
    }
    assert(map_model(r@) =~= map_model(m@));
    r
}

/// A copy of a list of strings.
pub fn copy_strings(v: &Vec<String>) -> (r: Vec<String>)
    ensures
        r@ == v@,
{
    let mut r: Vec<String> = Vec::new();
    for i in 0..v.len()
        invariant
            r@ == v@.take(i as int),
    {
        r.push(v[i].clone());
        assert(r@ =~= v@.take(i + 1));
    }
    assert(v@.take(v.len() as int) =~= v@);
    r
}

/// A copy of a channel.
pub fn copy_channel(c: &Channel) -> (r: Channel)
    ensures
        r@ == c@,
        map_same(r.extra@, c.extra@),
{
    Channel {
        id: c.id.clone(),
        name: c.name.clone(),
        is_channel: c.is_channel,
        is_group: c.is_group,
        is_im: c.is_im,
        is_mpim: c.is_mpim,
        is_private: c.is_private,
        is_archived: c.is_archived,
        is_starred: c.is_starred,
        is_ext_shared: c.is_ext_shared,
        updated: c.updated,
        user: c.user.clone(),
        unread_count: c.unread_count,
        unread_count_display: c.unread_count_display,
        mention_count: c.mention_count,
        has_unreads: c.has_unreads,
        last_read: c.last_read.clone(),
        previous_names: copy_strings(&c.previous_names),
        extra: copy_map(&c.extra),
    }
}

/// Two JSON objects hold the same members, in the same order, down to
/// every nested value.
pub open spec fn map_same(a: Seq<(String, JsonValue)>, b: Seq<(String, JsonValue)>) -> bool {
    &&& a.len() == b.len()
    &&& forall|k: int| 0 <= k < a.len() ==> (#[trigger] a[k]).0 == b[k].0 && json_same(a[k].1, b[k].1)
}

/// Two lists of JSON values hold the same values in full.
pub open spec fn jsons_same(a: Seq<JsonValue>, b: Seq<JsonValue>) -> bool {
    &&& a.len() == b.len()
    &&& forall|k: int| 0 <= k < a.len() ==> json_same(#[trigger] a[k], b[k])
}

pub open spec fn opt_json_same(a: Option<JsonValue>, b: Option<JsonValue>) -> bool {
    match (a, b) {
        (Some(x), Some(y)) => json_same(x, y),
        (None, None) => true,
        _ => false,
    }
}

pub open spec fn icons_same(a: MessageIcons, b: MessageIcons) -> bool {
    &&& a.image_36 == b.image_36
    &&& a.image_48 == b.image_48
    &&& a.image_64 == b.image_64
    &&& a.image_72 == b.image_72
    &&& a.image_192 == b.image_192
    &&& a.image_512 == b.image_512
    &&& a.image_original == b.image_original
    &&& a.icon_url == b.icon_url
    &&& map_same(a.extra@, b.extra@)
}

pub open spec fn opt_icons_same(a: Option<MessageIcons>, b: Option<MessageIcons>) -> bool {
    match (a, b) {
        (Some(x), Some(y)) => icons_same(x, y),
        (None, None) => true,
        _ => false,
    }
}

pub open spec fn bot_same(a: BotProfile, b: BotProfile) -> bool {
    &&& a.id == b.id
    &&& a.name == b.name
    &&& a.user_id == b.user_id
    &&& opt_icons_same(a.icons, b.icons)
    &&& map_same(a.extra@, b.extra@)
}

pub open spec fn opt_bot_same(a: Option<BotProfile>, b: Option<BotProfile>) -> bool {
    match (a, b) {
        (Some(x), Some(y)) => bot_same(x, y),
        (None, None) => true,
        _ => false,
    }
}

pub open spec fn reaction_same(a: Reaction, b: Reaction) -> bool {
    &&& a.name == b.name
    &&& a.users@ == b.users@
    &&& a.count == b.count
    &&& map_same(a.extra@, b.extra@)
}

pub open spec fn file_same(a: File, b: File) -> bool {
    &&& a.id == b.id
    &&& a.name == b.name
    &&& a.title == b.title
    &&& a.mimetype == b.mimetype
    &&& a.filetype == b.filetype
    &&& a.pretty_type == b.pretty_type
    &&& a.url_private == b.url_private
    &&& a.thumb_64 == b.thumb_64
    &&& a.thumb_80 == b.thumb_80
    &&& a.thumb_160 == b.thumb_160
    &&& a.thumb_360 == b.thumb_360
    &&& a.size == b.size
    &&& a.is_external == b.is_external
    &&& map_same(a.extra@, b.extra@)
}

pub open spec fn field_same(a: AttachmentField, b: AttachmentField) -> bool {
    &&& a.title == b.title
    &&& a.value == b.value
    &&& a.short == b.short
    &&& map_same(a.extra@, b.extra@)
}

pub open spec fn attachment_same(a: Attachment, b: Attachment) -> bool {
    &&& a.id == b.id
    &&& a.service_name == b.service_name
    &&& a.service_icon == b.service_icon
    &&& a.author_name == b.author_name
    &&& a.author_link == b.author_link
    &&& a.title == b.title
    &&& a.title_link == b.title_link
    &&& a.pretext == b.pretext
    &&& a.text == b.text
    &&& a.footer == b.footer
    &&& a.color == b.color
    &&& a.image_url == b.image_url
    &&& a.thumb_url == b.thumb_url
    &&& a.from_url == b.from_url
    &&& a.original_url == b.original_url
    &&& a.fields@.len() == b.fields@.len()
    &&& forall|k: int| 0 <= k < a.fields@.len() ==> field_same(#[trigger] a.fields@[k], b.fields@[k])
    &&& jsons_same(a.blocks@, b.blocks@)
    &&& map_same(a.extra@, b.extra@)
}

fn copy_opt_json(v: &Option<JsonValue>) -> (r: Option<JsonValue>)
    ensures
        opt_json_same(r, *v),
{
    match v {
        Some(x) => Some(copy_json(x)),
        None => None,
    }
}

fn copy_jsons(v: &Vec<JsonValue>) -> (r: Vec<JsonValue>)
    ensures
        jsons_same(r@, v@),
{
    let mut r: Vec<JsonValue> = Vec::new();
    for i in 0..v.len()
        invariant
            r@.len() == i,
            forall|k: int| 0 <= k < i ==> json_same(#[trigger] r@[k], v@[k]),
    {
        r.push(copy_json(&v[i]));
    }
    r
}

fn copy_icons(i: &MessageIcons) -> (r: MessageIcons)
    ensures
        icons_same(r, *i),
{
    MessageIcons {
        image_36: i.image_36.clone(),
        image_48: i.image_48.clone(),
        image_64: i.image_64.clone(),
        image_72: i.image_72.clone(),
        image_192: i.image_192.clone(),
        image_512: i.image_512.clone(),
        image_original: i.image_original.clone(),
        icon_url: i.icon_url.clone(),
        extra: copy_map(&i.extra),
    }
}

fn copy_opt_icons(i: &Option<MessageIcons>) -> (r: Option<MessageIcons>)
    ensures
        opt_icons_same(r, *i),
{
    match i {
        Some(x) => Some(copy_icons(x)),
        None => None,
    }
}

fn copy_opt_bot(b: &Option<BotProfile>) -> (r: Option<BotProfile>)
    ensures
        opt_bot_same(r, *b),
{
    match b {
        Some(x) => Some(BotProfile {
            id: x.id.clone(),
            name: x.name.clone(),
            user_id: x.user_id.clone(),
            icons: copy_opt_icons(&x.icons),
            extra: copy_map(&x.extra),
        }),
        None => None,
    }
}

fn copy_reactions(v: &Vec<Reaction>) -> (r: Vec<Reaction>)
    ensures
        r@.len() == v@.len(),
        forall|k: int| 0 <= k < v@.len() ==> reaction_same(#[trigger] r@[k], v@[k]),
{
    let mut r: Vec<Reaction> = Vec::new();
    for i in 0..v.len()
        invariant
            r@.len() == i,
            forall|k: int| 0 <= k < i ==> reaction_same(#[trigger] r@[k], v@[k]),
    {
        let x = &v[i];
        r.push(Reaction { name: x.name.clone(), users: copy_strings(&x.users), count: x.count, extra: copy_map(&x.extra) });
    }
    r
}

fn copy_files(v: &Vec<File>) -> (r: Vec<File>)
    ensures
        r@.len() == v@.len(),
        forall|k: int| 0 <= k < v@.len() ==> file_same(#[trigger] r@[k], v@[k]),
{
    let mut r: Vec<File> = Vec::new();
    for i in 0..v.len()
        invariant
            r@.len() == i,
            forall|k: int| 0 <= k < i ==> file_same(#[trigger] r@[k], v@[k]),
    {
        let x = &v[i];
        r.push(File {
            id: x.id.clone(),
            name: x.name.clone(),
            title: x.title.clone(),
            mimetype: x.mimetype.clone(),
            filetype: x.filetype.clone(),
            pretty_type: x.pretty_type.clone(),
            url_private: x.url_private.clone(),
            thumb_64: x.thumb_64.clone(),
            thumb_80: x.thumb_80.clone(),
            thumb_160: x.thumb_160.clone(),
            thumb_360: x.thumb_360.clone(),
            size: x.size,
            is_external: x.is_external,
            extra: copy_map(&x.extra),
        });
    }
    r
}

fn copy_fields(v: &Vec<AttachmentField>) -> (r: Vec<AttachmentField>)
    ensures
        r@.len() == v@.len(),
        forall|k: int| 0 <= k < v@.len() ==> field_same(#[trigger] r@[k], v@[k]),
{
    let mut r: Vec<AttachmentField> = Vec::new();
    for i in 0..v.len()
        invariant
            r@.len() == i,
            forall|k: int| 0 <= k < i ==> field_same(#[trigger] r@[k], v@[k]),
    {
        let x = &v[i];
        r.push(AttachmentField { title: x.title.clone(), value: x.value.clone(), short: x.short, extra: copy_map(&x.extra) });
    }
    r
}

fn copy_attachments(v: &Vec<Attachment>) -> (r: Vec<Attachment>)
    ensures
        r@.len() == v@.len(),
        forall|k: int| 0 <= k < v@.len() ==> attachment_same(#[trigger] r@[k], v@[k]),
{
    let mut r: Vec<Attachment> = Vec::new();
    for i in 0..v.len()
        invariant
            r@.len() == i,
            forall|k: int| 0 <= k < i ==> attachment_same(#[trigger] r@[k], v@[k]),
    {
        let x = &v[i];
        r.push(Attachment {
            id: x.id,
            service_name: x.service_name.clone(),
            service_icon: x.service_icon.clone(),
            author_name: x.author_name.clone(),
            author_link: x.author_link.clone(),
            title: x.title.clone(),
            title_link: x.title_link.clone(),
            pretext: x.pretext.clone(),
            text: x.text.clone(),
            footer: x.footer.clone(),
            color: x.color.clone(),
            image_url: x.image_url.clone(),
            thumb_url: x.thumb_url.clone(),
            from_url: x.from_url.clone(),
            original_url: x.original_url.clone(),
            fields: copy_fields(&x.fields),
            blocks: copy_jsons(&x.blocks),
            extra: copy_map(&x.extra),
        });
    }
    r
}

} // verus!

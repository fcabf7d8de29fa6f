//! The form fields of the Slack Web API calls the client makes.
//!
//! Each builder gives the API method and its form fields in order; sending
//! them (with the session's token and cookies) is the transport's job.

use vstd::prelude::*;

use crate::models::{ChannelId, MessageTs, UserId};
use crate::text;

verus! {

broadcast use vstd::string::group_string_axioms;

/// A form-encoded Web API call.
#[derive(Debug, Clone)]
pub struct FormRequest {
    pub method: String,
    pub fields: Vec<(String, String)>,
}

pub open spec fn pairs_view(f: Seq<(String, String)>) -> Seq<(Seq<char>, Seq<char>)> {
    f.map_values(|p: (String, String)| (p.0@, p.1@))
}

pub open spec fn is_request(r: FormRequest, method: Seq<char>, fields: Seq<(Seq<char>, Seq<char>)>) -> bool {
    r.method@ == method && pairs_view(r.fields@) == fields
}

/// `(key, value)` followed, when `value` is present, by nothing else:
/// the field list `push_opt` appends.
pub open spec fn opt_field(key: Seq<char>, value: Option<String>) -> Seq<(Seq<char>, Seq<char>)> {
    match value {
        Some(v) => seq![(key, v@)],
        None => Seq::empty(),
    }
}

pub open spec fn opt_decimal_field(key: Seq<char>, value: Option<u32>) -> Seq<(Seq<char>, Seq<char>)> {
    match value {
        Some(v) => seq![(key, text::decimal(v as nat))],
        None => Seq::empty(),
    }
}

pub open spec fn bool_text(b: bool) -> Seq<char> {
    if b {
        "true"@
    } else {
        "false"@
    }
}

fn new_fields() -> (f: Vec<(String, String)>)
    ensures
        pairs_view(f@) == Seq::<(Seq<char>, Seq<char>)>::empty(),
{
    let f: Vec<(String, String)> = Vec::new();
    assert(pairs_view(f@) =~= Seq::<(Seq<char>, Seq<char>)>::empty());
    f
}

fn push_field(fields: &mut Vec<(String, String)>, key: &str, value: String)
    ensures
        pairs_view(final(fields)@) == pairs_view(old(fields)@).push((key@, value@)),
{
    fields.push((text::owned(key), value));
    assert(pairs_view(fields@) =~= pairs_view(old(fields)@).push((key@, value@)));
}

fn push_opt(fields: &mut Vec<(String, String)>, key: &str, value: Option<String>)
    ensures
        pairs_view(final(fields)@) == pairs_view(old(fields)@) + opt_field(key@, value),
{
    match value {
        Some(v) => {
            push_field(fields, key, v);
            assert(pairs_view(fields@) =~= pairs_view(old(fields)@) + opt_field(key@, Some(v)));
        },
        None => {
            assert(pairs_view(fields@) =~= pairs_view(old(fields)@) + Seq::empty());
        },
    }
}

fn push_opt_decimal(fields: &mut Vec<(String, String)>, key: &str, value: Option<u32>)
    ensures
        pairs_view(final(fields)@) == pairs_view(old(fields)@) + opt_decimal_field(key@, value),
{
    match value {
        Some(v) => {
            push_field(fields, key, text::decimal_string(v as u64));
            assert(pairs_view(fields@) =~= pairs_view(old(fields)@) + opt_decimal_field(key@, value));
        },
        None => {
            assert(pairs_view(fields@) =~= pairs_view(old(fields)@) + Seq::empty());
        },
    }
}

fn request(method: &str, fields: Vec<(String, String)>) -> (r: FormRequest)
    ensures
        r.method@ == method@,
        r.fields == fields,
{
    FormRequest { method: text::owned(method), fields }
}

fn bool_string(b: bool) -> (s: String)
    ensures
        s@ == bool_text(b),
{
    if b {
        text::owned("true")
    } else {
        text::owned("false")
    }
}

pub fn user_boot() -> (r: FormRequest)
    ensures
        is_request(r, "client.userBoot"@, seq![("include_min_version_bump_check"@, "1"@)]),
{
    let mut f = new_fields();
    push_field(&mut f, "include_min_version_bump_check", text::owned("1"));
    assert(pairs_view(f@) =~= seq![("include_min_version_bump_check"@, "1"@)]);
    request("client.userBoot", f)
}

/// Arguments of `conversations.history`.
#[derive(Debug, Clone, Default)]
pub struct HistoryArgs {
    pub channel: ChannelId,
    pub cursor: Option<String>,
    pub latest: Option<MessageTs>,
    pub oldest: Option<MessageTs>,
    pub limit: Option<u32>,
    pub inclusive: bool,
}

/// Arguments of `conversations.replies`.
#[derive(Debug, Clone, Default)]
pub struct RepliesArgs {
    pub channel: ChannelId,
    pub ts: MessageTs,
    pub cursor: Option<String>,
    pub latest: Option<MessageTs>,
    pub oldest: Option<MessageTs>,
    pub limit: Option<u32>,
    pub inclusive: bool,
}

/// The paging fields shared by history and replies.
pub open spec fn paging_fields(
    cursor: Option<String>,
    latest: Option<String>,
    oldest: Option<String>,
    limit: Option<u32>,
    inclusive: bool,
) -> Seq<(Seq<char>, Seq<char>)> {
    opt_field("cursor"@, cursor) + opt_field("latest"@, latest) + opt_field("oldest"@, oldest)
        + opt_decimal_field("limit"@, limit) + if inclusive {
        seq![("inclusive"@, "true"@)]
    } else {
        Seq::empty()
    }
}

fn push_paging(
    f: &mut Vec<(String, String)>,
    cursor: Option<String>,
    latest: Option<String>,
    oldest: Option<String>,
    limit: Option<u32>,
    inclusive: bool,
)
    ensures
        pairs_view(final(f)@) == pairs_view(old(f)@) + paging_fields(
            cursor,
            latest,
            oldest,
            limit,
            inclusive,
        ),
{
    let ghost c = cursor;
    let ghost l = latest;
    let ghost o = oldest;
    push_opt(f, "cursor", cursor);
    push_opt(f, "latest", latest);
    push_opt(f, "oldest", oldest);
    push_opt_decimal(f, "limit", limit);
    if inclusive {
        push_field(f, "inclusive", text::owned("true"));
    }
    assert(pairs_view(f@) =~= pairs_view(old(f)@) + paging_fields(c, l, o, limit, inclusive));
}

pub fn conversations_history(args: HistoryArgs) -> (r: FormRequest)
    ensures
        is_request(
            r,
            "conversations.history"@,
            seq![("channel"@, args.channel@)] + paging_fields(
                args.cursor,
                args.latest,
                args.oldest,
                args.limit,
                args.inclusive,
            ),
        ),
{
    let ghost a = args;
    let HistoryArgs { channel, cursor, latest, oldest, limit, inclusive } = args;
    let mut f = new_fields();
    push_field(&mut f, "channel", channel);
    push_paging(&mut f, cursor, latest, oldest, limit, inclusive);
    assert(pairs_view(f@) =~= seq![("channel"@, args.channel@)] + paging_fields(
                args.cursor,
                args.latest,
                args.oldest,
                args.limit,
                args.inclusive,
            ));
    request("conversations.history", f)
}

pub fn conversations_replies(args: RepliesArgs) -> (r: FormRequest)
    ensures
        is_request(
            r,
            "conversations.replies"@,
            seq![("channel"@, args.channel@), ("ts"@, args.ts@)] + paging_fields(
                args.cursor,
                args.latest,
                args.oldest,
                args.limit,
                args.inclusive,
            ),
        ),
{
    let RepliesArgs { channel, ts, cursor, latest, oldest, limit, inclusive } = args;
    let mut f = new_fields();
    push_field(&mut f, "channel", channel);
    push_field(&mut f, "ts", ts);
    push_paging(&mut f, cursor, latest, oldest, limit, inclusive);
    assert(pairs_view(f@) =~= seq![("channel"@, args.channel@), ("ts"@, args.ts@)] + paging_fields(
                args.cursor,
                args.latest,
                args.oldest,
                args.limit,
                args.inclusive,
            ));
    request("conversations.replies", f)
}

pub fn conversations_mark(channel: ChannelId, ts: MessageTs) -> (r: FormRequest)
    ensures
        is_request(r, "conversations.mark"@, seq![("channel"@, channel@), ("ts"@, ts@)]),
{
    let mut f = new_fields();
    push_field(&mut f, "channel", channel);
    push_field(&mut f, "ts", ts);
    assert(pairs_view(f@) =~= seq![("channel"@, channel@), ("ts"@, ts@)]);
    request("conversations.mark", f)
}

pub fn subscriptions_thread_mark(channel: ChannelId, root_ts: MessageTs, ts: MessageTs) -> (r:
    FormRequest)
    ensures
        is_request(
            r,
            "subscriptions.thread.mark"@,
            seq![("channel"@, channel@), ("thread_ts"@, root_ts@), ("ts"@, ts@), ("read"@, "1"@)],
        ),
{
    let mut f = new_fields();
    push_field(&mut f, "channel", channel);
    push_field(&mut f, "thread_ts", root_ts);
    push_field(&mut f, "ts", ts);
    push_field(&mut f, "read", text::owned("1"));
    assert(pairs_view(f@) =~= seq![("channel"@, channel@), ("thread_ts"@, root_ts@), ("ts"@, ts@), ("read"@, "1"@)]);
    request("subscriptions.thread.mark", f)
}

pub fn subscriptions_thread_get_view(limit: u32, max_ts: Option<MessageTs>, vip_only: bool) -> (r:
    FormRequest)
    ensures
        is_request(
            r,
            "subscriptions.thread.getView"@,
            seq![
                ("limit"@, text::decimal(limit as nat)),
                ("fetch_threads_state"@, "true"@),
                ("priority_mode"@, if vip_only {
                    "priority"@
                } else {
                    "all"@
                }),
            ] + opt_field("max_ts"@, max_ts),
        ),
{
    let mut f = new_fields();
    push_field(&mut f, "limit", text::decimal_string(limit as u64));
    push_field(&mut f, "fetch_threads_state", text::owned("true"));
    push_field(
        &mut f,
        "priority_mode",
        if vip_only {
            text::owned("priority")
        } else {
            text::owned("all")
        },
    );
    push_opt(&mut f, "max_ts", max_ts);
    assert(pairs_view(f@) =~= seq![
                ("limit"@, text::decimal(limit as nat)),
                ("fetch_threads_state"@, "true"@),
                ("priority_mode"@, if vip_only {
                    "priority"@
                } else {
                    "all"@
                }),
            ] + opt_field("max_ts"@, max_ts));
    request("subscriptions.thread.getView", f)
}

pub fn conversations_info(channel: ChannelId) -> (r: FormRequest)
    ensures
        is_request(
            r,
            "conversations.info"@,
            seq![("channel"@, channel@), ("include_num_members"@, "false"@)],
        ),
{
    let mut f = new_fields();
    push_field(&mut f, "channel", channel);
    push_field(&mut f, "include_num_members", text::owned("false"));
    assert(pairs_view(f@) =~= seq![("channel"@, channel@), ("include_num_members"@, "false"@)]);
    request("conversations.info", f)
}

pub fn client_counts() -> (r: FormRequest)
    ensures
        is_request(r, "client.counts"@, Seq::empty()),
{
    request("client.counts", new_fields())
}

pub fn channel_sections() -> (r: FormRequest)
    ensures
        is_request(r, "users.channelSections.list"@, Seq::empty()),
{
    request("users.channelSections.list", new_fields())
}

/// The activity kinds the activity feed asks for.
pub open spec fn activity_types() -> Seq<char> {
    "at_user,at_user_group,at_channel,at_everyone,keyword,list_record_assigned,list_user_mentioned,list_todo_notification,list_approval_request,list_approval_reviewed,unjoined_channel_mention,thread_v2,message_reaction,bot_dm_bundle,dm,internal_channel_invite,external_channel_invite,external_dm_invite,channel,saved_reminder,list_record_edited"@
}

pub fn activity_feed(limit: u32, cursor: Option<String>, unread_only: bool) -> (r: FormRequest)
    ensures
        is_request(
            r,
            "activity.feed"@,
            seq![
                ("limit"@, text::decimal(limit as nat)),
                ("types"@, activity_types()),
                ("mode"@, "chrono_v1"@),
            ] + opt_field("cursor"@, cursor) + seq![
                ("archive_only"@, "false"@),
                ("unread_only"@, bool_text(unread_only)),
                ("priority_only"@, "false"@),
                ("only_salesforce_channels"@, "false"@),
                ("exclude_automations"@, "false"@),
            ],
        ),
{
    let ghost c = cursor;
    let mut f = new_fields();
    push_field(&mut f, "limit", text::decimal_string(limit as u64));
    push_field(
        &mut f,
        "types",
        text::owned(
            "at_user,at_user_group,at_channel,at_everyone,keyword,list_record_assigned,list_user_mentioned,list_todo_notification,list_approval_request,list_approval_reviewed,unjoined_channel_mention,thread_v2,message_reaction,bot_dm_bundle,dm,internal_channel_invite,external_channel_invite,external_dm_invite,channel,saved_reminder,list_record_edited",
        ),
    );
    push_field(&mut f, "mode", text::owned("chrono_v1"));
    push_opt(&mut f, "cursor", cursor);
    let ghost before = pairs_view(f@);
    push_field(&mut f, "archive_only", text::owned("false"));
    push_field(&mut f, "unread_only", bool_string(unread_only));
    push_field(&mut f, "priority_only", text::owned("false"));
    push_field(&mut f, "only_salesforce_channels", text::owned("false"));
    push_field(&mut f, "exclude_automations", text::owned("false"));
    assert(pairs_view(f@) =~= before + seq![
        ("archive_only"@, "false"@),
        ("unread_only"@, bool_text(unread_only)),
        ("priority_only"@, "false"@),
        ("only_salesforce_channels"@, "false"@),
        ("exclude_automations"@, "false"@),
    ]);
    assert(pairs_view(f@) =~= seq![
                ("limit"@, text::decimal(limit as nat)),
                ("types"@, activity_types()),
                ("mode"@, "chrono_v1"@),
            ] + opt_field("cursor"@, cursor) + seq![
                ("archive_only"@, "false"@),
                ("unread_only"@, bool_text(unread_only)),
                ("priority_only"@, "false"@),
                ("only_salesforce_channels"@, "false"@),
                ("exclude_automations"@, "false"@),
            ]);
    request("activity.feed", f)
}

pub fn sidebar_dms() -> (r: FormRequest)
    ensures
        is_request(r, "sidebar.dms"@, Seq::empty()),
{
    request("sidebar.dms", new_fields())
}

pub fn client_dms(count: u32, cursor: Option<String>) -> (r: FormRequest)
    ensures
        is_request(
            r,
            "client.dms"@,
            seq![
                ("count"@, text::decimal(count as nat)),
                ("include_closed"@, "true"@),
                ("include_channel"@, "true"@),
                ("exclude_bots"@, "true"@),
                ("priority_mode"@, "priority"@),
            ] + opt_field("cursor"@, cursor),
        ),
{
    let mut f = new_fields();
    push_field(&mut f, "count", text::decimal_string(count as u64));
    push_field(&mut f, "include_closed", text::owned("true"));
    push_field(&mut f, "include_channel", text::owned("true"));
    push_field(&mut f, "exclude_bots", text::owned("true"));
    push_field(&mut f, "priority_mode", text::owned("priority"));
    push_opt(&mut f, "cursor", cursor);
    assert(pairs_view(f@) =~= seq![
                ("count"@, text::decimal(count as nat)),
                ("include_closed"@, "true"@),
                ("include_channel"@, "true"@),
                ("exclude_bots"@, "true"@),
                ("priority_mode"@, "priority"@),
            ] + opt_field("cursor"@, cursor));
    request("client.dms", f)
}

pub fn users_set_presence(presence: String) -> (r: FormRequest)
    ensures
        is_request(r, "users.setPresence"@, seq![("presence"@, presence@)]),
{
    let mut f = new_fields();
    push_field(&mut f, "presence", presence);
    assert(pairs_view(f@) =~= seq![("presence"@, presence@)]);
    request("users.setPresence", f)
}

pub fn users_profile_get(user: UserId) -> (r: FormRequest)
    ensures
        is_request(r, "users.profile.get"@, seq![("user"@, user@)]),
{
    let mut f = new_fields();
    push_field(&mut f, "user", user);
    assert(pairs_view(f@) =~= seq![("user"@, user@)]);
    request("users.profile.get", f)
}

pub fn users_profile_get_extras(user: UserId) -> (r: FormRequest)
    ensures
        is_request(r, "users.profile.getExtras"@, seq![("user"@, user@), ("keys"@, "im_mpim_ids"@)]),
{
    let mut f = new_fields();
    push_field(&mut f, "user", user);
    push_field(&mut f, "keys", text::owned("im_mpim_ids"));
    assert(pairs_view(f@) =~= seq![("user"@, user@), ("keys"@, "im_mpim_ids"@)]);
    request("users.profile.getExtras", f)
}

pub fn team_profile_get() -> (r: FormRequest)
    ensures
        is_request(r, "team.profile.get"@, Seq::empty()),
{
    request("team.profile.get", new_fields())
}

pub fn conversations_open(user: UserId) -> (r: FormRequest)
    ensures
        is_request(r, "conversations.open"@, seq![("users"@, user@), ("return_im"@, "true"@)]),
{
    let mut f = new_fields();
    push_field(&mut f, "users", user);
    push_field(&mut f, "return_im", text::owned("true"));
    assert(pairs_view(f@) =~= seq![("users"@, user@), ("return_im"@, "true"@)]);
    request("conversations.open", f)
}

pub fn chat_post_message(channel: ChannelId, text_body: String, thread_ts: Option<MessageTs>) -> (r:
    FormRequest)
    ensures
        is_request(
            r,
            "chat.postMessage"@,
            seq![("channel"@, channel@), ("text"@, text_body@)] + opt_field("thread_ts"@, thread_ts),
        ),
{
    let mut f = new_fields();
    push_field(&mut f, "channel", channel);
    push_field(&mut f, "text", text_body);
    push_opt(&mut f, "thread_ts", thread_ts);
    assert(pairs_view(f@) =~= seq![("channel"@, channel@), ("text"@, text_body@)] + opt_field("thread_ts"@, thread_ts));
    request("chat.postMessage", f)
}

pub fn chat_update(channel: ChannelId, ts: MessageTs, text_body: String) -> (r: FormRequest)
    ensures
        is_request(
            r,
            "chat.update"@,
            seq![("channel"@, channel@), ("ts"@, ts@), ("text"@, text_body@)],
        ),
{
    let mut f = new_fields();
    push_field(&mut f, "channel", channel);
    push_field(&mut f, "ts", ts);
    push_field(&mut f, "text", text_body);
    assert(pairs_view(f@) =~= seq![("channel"@, channel@), ("ts"@, ts@), ("text"@, text_body@)]);
    request("chat.update", f)
}

pub fn chat_delete(channel: ChannelId, ts: MessageTs) -> (r: FormRequest)
    ensures
        is_request(r, "chat.delete"@, seq![("channel"@, channel@), ("ts"@, ts@)]),
{
    let mut f = new_fields();
    push_field(&mut f, "channel", channel);
    push_field(&mut f, "ts", ts);
    assert(pairs_view(f@) =~= seq![("channel"@, channel@), ("ts"@, ts@)]);
    request("chat.delete", f)
}

pub fn reactions_add(channel: ChannelId, timestamp: MessageTs, name: String) -> (r: FormRequest)
    ensures
        is_request(
            r,
            "reactions.add"@,
            seq![("channel"@, channel@), ("timestamp"@, timestamp@), ("name"@, name@)],
        ),
{
    reaction("reactions.add", channel, timestamp, name)
}

pub fn reactions_remove(channel: ChannelId, timestamp: MessageTs, name: String) -> (r: FormRequest)
    ensures
        is_request(
            r,
            "reactions.remove"@,
            seq![("channel"@, channel@), ("timestamp"@, timestamp@), ("name"@, name@)],
        ),
{
    reaction("reactions.remove", channel, timestamp, name)
}

fn reaction(endpoint: &str, channel: ChannelId, timestamp: MessageTs, name: String) -> (r: FormRequest)
    ensures
        is_request(r, endpoint@, seq![("channel"@, channel@), ("timestamp"@, timestamp@), ("name"@, name@)]),
{
    let mut f = new_fields();
    push_field(&mut f, "channel", channel);
    push_field(&mut f, "timestamp", timestamp);
    push_field(&mut f, "name", name);
    assert(pairs_view(f@) =~= seq![("channel"@, channel@), ("timestamp"@, timestamp@), ("name"@, name@)]);
    request(endpoint, f)
}

/// Arguments of `search.modules.messages`.
#[derive(Debug, Clone)]
pub struct SearchArgs {
    pub query: String,
    pub count: u32,
    pub page: u32,
}

impl SearchArgs {
    /// The first page of 20 results for `query`.
    pub fn new(query: &str) -> (r: SearchArgs)
        ensures
            r.query@ == query@,
            r.count == 20,
            r.page == 1,
    {
        SearchArgs { query: text::owned(query), count: 20, page: 1 }
    }
}

/// Arguments of `search.inline`.
#[derive(Debug, Clone)]
pub struct SearchInlineArgs {
    pub query: String,
    pub channel: ChannelId,
    pub count: u32,
    pub page: u32,
}

impl SearchInlineArgs {
    /// The first page of 20 results for `query` in `channel`.
    pub fn new(query: &str, channel: ChannelId) -> (r: SearchInlineArgs)
        ensures
            r.query@ == query@,
            r.channel == channel,
            r.count == 20,
            r.page == 1,
    {
        SearchInlineArgs { query: text::owned(query), channel, count: 20, page: 1 }
    }
}

/// Is `c` a lowercase hexadecimal digit?
pub open spec fn is_lower_hex(c: char) -> bool {
    ('0' <= c && c <= '9') || ('a' <= c && c <= 'f')
}

/// The hyphenated lowercase text of a random (version 4, RFC 4122 variant)
/// UUID: 36 characters in groups of 8, 4, 4, 4 and 12 hexadecimal digits,
/// the version digit `4` opening the third group and one of `8`, `9`, `a`,
/// `b` opening the fourth.
pub open spec fn is_uuid_v4_text(s: Seq<char>) -> bool {
    &&& s.len() == 36
    &&& forall|i: int| 0 <= i < 36 ==> (if i == 8 || i == 13 || i == 18 || i == 23 {
        #[trigger] s[i] == '-'
    } else {
        is_lower_hex(s[i])
    })
    &&& s[14] == '4'
    &&& (s[19] == '8' || s[19] == '9' || s[19] == 'a' || s[19] == 'b')
}

/// `uuid::Uuid::new_v4().to_string()`: a fresh random request id. Its value
/// is random; its form is the hyphenated lowercase text of a version 4 UUID
/// (`new_v4` masks in the version and variant bits, `Display` writes the
/// hyphenated lowercase form).
#[verifier::external_body]
fn random_request_id() -> (r: String)
    ensures
        is_uuid_v4_text(r@),
{
    uuid::Uuid::new_v4().to_string()
}

/// `search.modules.messages` with the given client and session ids.
pub fn search_messages_with_ids(args: SearchArgs, client_req_id: String, search_session_id: String) -> (r:
    FormRequest)
    ensures
        is_request(
            r,
            "search.modules.messages"@,
            seq![
                ("module"@, "messages"@),
                ("query"@, args.query@),
                ("count"@, text::decimal(args.count as nat)),
                ("page"@, text::decimal(args.page as nat)),
                ("sort"@, "timestamp"@),
                ("sort_dir"@, "desc"@),
                ("highlight"@, "true"@),
                ("extracts"@, "true"@),
                ("extra_message_data"@, "true"@),
                ("client_req_id"@, client_req_id@),
                ("search_session_id"@, search_session_id@),
            ],
        ),
{
    let SearchArgs { query, count, page } = args;
    let mut f = new_fields();
    push_field(&mut f, "module", text::owned("messages"));
    push_field(&mut f, "query", query);
    push_field(&mut f, "count", text::decimal_string(count as u64));
    push_field(&mut f, "page", text::decimal_string(page as u64));
    push_field(&mut f, "sort", text::owned("timestamp"));
    push_field(&mut f, "sort_dir", text::owned("desc"));
    push_field(&mut f, "highlight", text::owned("true"));
    push_field(&mut f, "extracts", text::owned("true"));
    push_field(&mut f, "extra_message_data", text::owned("true"));
    push_field(&mut f, "client_req_id", client_req_id);
    push_field(&mut f, "search_session_id", search_session_id);
    assert(pairs_view(f@) =~= seq![
                ("module"@, "messages"@),
                ("query"@, args.query@),
                ("count"@, text::decimal(args.count as nat)),
                ("page"@, text::decimal(args.page as nat)),
                ("sort"@, "timestamp"@),
                ("sort_dir"@, "desc"@),
                ("highlight"@, "true"@),
                ("extracts"@, "true"@),
                ("extra_message_data"@, "true"@),
                ("client_req_id"@, client_req_id@),
                ("search_session_id"@, search_session_id@),
            ]);
    request("search.modules.messages", f)
}

/// `search.modules.messages`, with fresh random request and session ids.
pub fn search_messages(args: SearchArgs) -> (r: FormRequest)
    ensures
        r.method@ == "search.modules.messages"@,
        pairs_view(r.fields@).len() == 11,
        pairs_view(r.fields@).take(9) == seq![
            ("module"@, "messages"@),
            ("query"@, args.query@),
            ("count"@, text::decimal(args.count as nat)),
            ("page"@, text::decimal(args.page as nat)),
            ("sort"@, "timestamp"@),
            ("sort_dir"@, "desc"@),
            ("highlight"@, "true"@),
            ("extracts"@, "true"@),
            ("extra_message_data"@, "true"@),
        ],
        pairs_view(r.fields@)[9].0 == "client_req_id"@,
        is_uuid_v4_text(pairs_view(r.fields@)[9].1),
        pairs_view(r.fields@)[10].0 == "search_session_id"@,
        is_uuid_v4_text(pairs_view(r.fields@)[10].1),
{
    let a = random_request_id();
    let b = random_request_id();
    let r = search_messages_with_ids(args, a, b);
    assert(pairs_view(r.fields@).take(9) =~= seq![
        ("module"@, "messages"@),
        ("query"@, args.query@),
        ("count"@, text::decimal(args.count as nat)),
        ("page"@, text::decimal(args.page as nat)),
        ("sort"@, "timestamp"@),
        ("sort_dir"@, "desc"@),
        ("highlight"@, "true"@),
        ("extracts"@, "true"@),
        ("extra_message_data"@, "true"@),
    ]);
    r
}

/// `search.inline` with the given client and session ids.
pub fn search_inline_with_ids(args: SearchInlineArgs, client_req_id: String, search_session_id: String) -> (r:
    FormRequest)
    ensures
        is_request(
            r,
            "search.inline"@,
            seq![
                ("query"@, args.query@),
                ("channel"@, args.channel@),
                ("count"@, text::decimal(args.count as nat)),
                ("page"@, text::decimal(args.page as nat)),
                ("sort"@, "timestamp"@),
                ("sort_dir"@, "desc"@),
                ("highlight"@, "true"@),
                ("extracts"@, "true"@),
                ("client_req_id"@, client_req_id@),
                ("search_session_id"@, search_session_id@),
            ],
        ),
{
    let SearchInlineArgs { query, channel, count, page } = args;
    let mut f = new_fields();
    push_field(&mut f, "query", query);
    push_field(&mut f, "channel", channel);
    push_field(&mut f, "count", text::decimal_string(count as u64));
    push_field(&mut f, "page", text::decimal_string(page as u64));
    push_field(&mut f, "sort", text::owned("timestamp"));
    push_field(&mut f, "sort_dir", text::owned("desc"));
    push_field(&mut f, "highlight", text::owned("true"));
    push_field(&mut f, "extracts", text::owned("true"));
    push_field(&mut f, "client_req_id", client_req_id);
    push_field(&mut f, "search_session_id", search_session_id);
    assert(pairs_view(f@) =~= seq![
                ("query"@, args.query@),
                ("channel"@, args.channel@),
                ("count"@, text::decimal(args.count as nat)),
                ("page"@, text::decimal(args.page as nat)),
                ("sort"@, "timestamp"@),
                ("sort_dir"@, "desc"@),
                ("highlight"@, "true"@),
                ("extracts"@, "true"@),
                ("client_req_id"@, client_req_id@),
                ("search_session_id"@, search_session_id@),
            ]);
    request("search.inline", f)
}

/// `search.inline`, with fresh random request and session ids.
pub fn search_inline(args: SearchInlineArgs) -> (r: FormRequest)
    ensures
        r.method@ == "search.inline"@,
        pairs_view(r.fields@).len() == 10,
        pairs_view(r.fields@).take(8) == seq![
            ("query"@, args.query@),
            ("channel"@, args.channel@),
            ("count"@, text::decimal(args.count as nat)),
            ("page"@, text::decimal(args.page as nat)),
            ("sort"@, "timestamp"@),
            ("sort_dir"@, "desc"@),
            ("highlight"@, "true"@),
            ("extracts"@, "true"@),
        ],
        pairs_view(r.fields@)[8].0 == "client_req_id"@,
        is_uuid_v4_text(pairs_view(r.fields@)[8].1),
        pairs_view(r.fields@)[9].0 == "search_session_id"@,
        is_uuid_v4_text(pairs_view(r.fields@)[9].1),
{
    let a = random_request_id();
    let b = random_request_id();
    let r = search_inline_with_ids(args, a, b);
    assert(pairs_view(r.fields@).take(8) =~= seq![
        ("query"@, args.query@),
        ("channel"@, args.channel@),
        ("count"@, text::decimal(args.count as nat)),
        ("page"@, text::decimal(args.page as nat)),
        ("sort"@, "timestamp"@),
        ("sort_dir"@, "desc"@),
        ("highlight"@, "true"@),
        ("extracts"@, "true"@),
    ]);
    r
}

// ---------------------------------------------------------------------------
// messages.list
// ---------------------------------------------------------------------------

pub open spec fn hex_digit(d: int) -> char {
    if d < 10 {
        ('0' as int + d) as char
    } else {
        ('a' as int + d - 10) as char
    }
}

/// How JSON writes a character inside a string: `"` and `\` escaped, the
/// controls backspace, tab, newline, form feed and carriage return by
/// name, the other control characters as `\u00xx`, the rest as they are.
pub open spec fn json_char(c: char) -> Seq<char> {
    if c == '"' {
        seq!['\\', '"']
    } else if c == '\\' {
        seq!['\\', '\\']
    } else if c == '\x08' {
        seq!['\\', 'b']
    } else if c == '\t' {
        seq!['\\', 't']
    } else if c == '\n' {
        seq!['\\', 'n']
    } else if c == '\x0c' {
        seq!['\\', 'f']
    } else if c == '\r' {
        seq!['\\', 'r']
    } else if (c as u32) < 0x20 {
        seq!['\\', 'u', '0', '0', hex_digit((c as int) / 16), hex_digit((c as int) % 16)]
    } else {
        seq![c]
    }
}

pub open spec fn json_escaped(s: Seq<char>) -> Seq<char>
    decreases s.len(),
{
    if s.len() == 0 {
        Seq::empty()
    } else {
        json_escaped(s.drop_last()) + json_char(s.last())
    }
}

/// A string as a JSON string literal.
pub open spec fn json_string(s: Seq<char>) -> Seq<char> {
    seq!['"'] + json_escaped(s) + seq!['"']
}

/// `serde_json::to_string` on a string slice: the string as a JSON string
/// literal, as the serializer's escape table writes it.
#[verifier::external_body]
fn json_quote(s: &str) -> (r: String)
    ensures
        r@ == json_string(s@),
{
    match serde_json::to_string(s) {
        Ok(t) => t,
        Err(_) => String::new(),
    }
}

/// Each string as a JSON string literal.
pub open spec fn json_strings(s: Seq<Seq<char>>) -> Seq<Seq<char>>
    decreases s.len(),
{
    if s.len() == 0 {
        Seq::empty()
    } else {
        json_strings(s.drop_last()).push(json_string(s.last()))
    }
}

/// `{"channel":…,"timestamps":[…]}` for one channel.
pub open spec fn ids_entry(channel: Seq<char>, timestamps: Seq<Seq<char>>) -> Seq<char> {
    "{\"channel\":"@ + json_string(channel) + ",\"timestamps\":["@ + crate::mpdm::join(json_strings(timestamps), ","@)
        + "]}"@
}

pub open spec fn ids_entries(ids: Seq<(ChannelId, Vec<MessageTs>)>) -> Seq<Seq<char>>
    decreases ids.len(),
{
    if ids.len() == 0 {
        Seq::empty()
    } else {
        ids_entries(ids.drop_last()).push(
            ids_entry(ids.last().0@, crate::models::strings_view(ids.last().1@)),
        )
    }
}

/// The `message_ids` field: a JSON array with one entry per channel.
pub open spec fn message_ids_json(ids: Seq<(ChannelId, Vec<MessageTs>)>) -> Seq<char> {
    "["@ + crate::mpdm::join(ids_entries(ids), ","@) + "]"@
}

/// Appends `pieces[i]` to `out`, after a comma unless it is the first.
proof fn lemma_join_step(pieces: Seq<Seq<char>>, i: int)
    requires
        0 <= i < pieces.len(),
    ensures
        crate::mpdm::join(pieces.take(i + 1), ","@) == if i == 0 {
            pieces[0]
        } else {
            crate::mpdm::join(pieces.take(i), ","@) + ","@ + pieces[i]
        },
{
    assert(pieces.take(i + 1).drop_last() =~= pieces.take(i));
    assert(pieces.take(i + 1).last() == pieces[i]);
}

/// The JSON array of the timestamps.
fn timestamps_json(timestamps: &Vec<MessageTs>, out: &mut String)
    ensures
        final(out)@ == old(out)@ + "["@ + crate::mpdm::join(json_strings(crate::models::strings_view(timestamps@)), ","@)
            + "]"@,
{
    let ghost start = out@;
    let ghost q = json_strings(crate::models::strings_view(timestamps@));
    text::push_str(out, "[");
    proof {
        lemma_json_strings_len(crate::models::strings_view(timestamps@));
        assert(q.take(0) =~= Seq::<Seq<char>>::empty());
    }
    let mut i: usize = 0;
    while i < timestamps.len()
        invariant
            i <= timestamps@.len(),
            q == json_strings(crate::models::strings_view(timestamps@)),
            q.len() == timestamps@.len(),
            out@ == start + "["@ + crate::mpdm::join(q.take(i as int), ","@),
        decreases timestamps@.len() - i,
    {
        proof {
            lemma_json_strings_at(crate::models::strings_view(timestamps@), i as int);
            lemma_join_step(q, i as int);
        }
        if i > 0 {
            text::push_str(out, ",");
        }
        let quoted = json_quote(timestamps[i].as_str());
        text::push_str(out, quoted.as_str());
        i = i + 1;
    }
    assert(q.take(i as int) =~= q);
    text::push_str(out, "]");
}

proof fn lemma_json_strings_at(s: Seq<Seq<char>>, i: int)
    requires
        0 <= i < s.len(),
    ensures
        json_strings(s).len() == s.len(),
        json_strings(s)[i] == json_string(s[i]),
    decreases s.len(),
{
    lemma_json_strings_len(s.drop_last());
    if i < s.len() - 1 {
        lemma_json_strings_at(s.drop_last(), i);
    }
}

proof fn lemma_json_strings_len(s: Seq<Seq<char>>)
    ensures
        json_strings(s).len() == s.len(),
    decreases s.len(),
{
    if s.len() > 0 {
        lemma_json_strings_len(s.drop_last());
    }
}

proof fn lemma_ids_entries_at(ids: Seq<(ChannelId, Vec<MessageTs>)>, i: int)
    requires
        0 <= i < ids.len(),
    ensures
        ids_entries(ids).len() == ids.len(),
        ids_entries(ids)[i] == ids_entry(ids[i].0@, crate::models::strings_view(ids[i].1@)),
    decreases ids.len(),
{
    lemma_ids_entries_len(ids.drop_last());
    if i < ids.len() - 1 {
        lemma_ids_entries_at(ids.drop_last(), i);
    }
}

proof fn lemma_ids_entries_len(ids: Seq<(ChannelId, Vec<MessageTs>)>)
    ensures
        ids_entries(ids).len() == ids.len(),
    decreases ids.len(),
{
    if ids.len() > 0 {
        lemma_ids_entries_len(ids.drop_last());
    }
}

/// `messages.list` for the given messages of each channel.
pub fn messages_list(message_ids: &Vec<(ChannelId, Vec<MessageTs>)>) -> (r: FormRequest)
    ensures
        is_request(
            r,
            "messages.list"@,
            seq![
                ("message_ids"@, message_ids_json(message_ids@)),
                ("org_wide_aware"@, "true"@),
                ("cached_latest_updates"@, "{}"@),
            ],
        ),
{
    let ghost entries = ids_entries(message_ids@);
    let mut payload = String::new();
    text::push_str(&mut payload, "[");
    proof {
        lemma_ids_entries_len(message_ids@);
        assert(entries.take(0) =~= Seq::<Seq<char>>::empty());
    }
    let mut i: usize = 0;
    while i < message_ids.len()
        invariant
            i <= message_ids@.len(),
            entries == ids_entries(message_ids@),
            entries.len() == message_ids@.len(),
            payload@ == "["@ + crate::mpdm::join(entries.take(i as int), ","@),
        decreases message_ids@.len() - i,
    {
        proof {
            lemma_ids_entries_at(message_ids@, i as int);
            lemma_join_step(entries, i as int);
        }
        if i > 0 {
            text::push_str(&mut payload, ",");
        }
        let ghost before = payload@;
        text::push_str(&mut payload, "{\"channel\":");
        let quoted = json_quote(message_ids[i].0.as_str());
        text::push_str(&mut payload, quoted.as_str());
        text::push_str(&mut payload, ",\"timestamps\":");
        timestamps_json(&message_ids[i].1, &mut payload);
        text::push_str(&mut payload, "}");
        proof {
            reveal_strlit("[");
            reveal_strlit("]");
            reveal_strlit("}");
            reveal_strlit("]}");
            reveal_strlit(",\"timestamps\":");
            reveal_strlit(",\"timestamps\":[");
        }
        assert(payload@ =~= before + entries[i as int]);
        i = i + 1;
    }
    assert(entries.take(i as int) =~= entries);
    text::push_str(&mut payload, "]");
    let mut f = new_fields();
    push_field(&mut f, "message_ids", payload);
    push_field(&mut f, "org_wide_aware", text::owned("true"));
    push_field(&mut f, "cached_latest_updates", text::owned("{}"));
    assert(pairs_view(f@) =~= seq![
        ("message_ids"@, message_ids_json(message_ids@)),
        ("org_wide_aware"@, "true"@),
        ("cached_latest_updates"@, "{}"@),
    ]);
    request("messages.list", f)
}

/// The value of the first field named `key`.
pub open spec fn field_value(f: Seq<(Seq<char>, Seq<char>)>, key: Seq<char>) -> Option<Seq<char>>
    decreases f.len(),
{
    if f.len() == 0 {
        None
    } else if f[0].0 == key {
        Some(f[0].1)
    } else {
        field_value(f.drop_first(), key)
    }
}

proof fn lemma_field_value_append(a: Seq<(Seq<char>, Seq<char>)>, b: Seq<(Seq<char>, Seq<char>)>, key: Seq<char>)
    ensures
        field_value(a + b, key) == (if field_value(a, key) is Some {
            field_value(a, key)
        } else {
            field_value(b, key)
        }),
    decreases a.len(),
{
    if a.len() > 0 {
        assert((a + b).drop_first() =~= a.drop_first() + b);
        lemma_field_value_append(a.drop_first(), b, key);
    } else {
        assert(a + b =~= b);
    }
}

proof fn lemma_field_value_one(k: Seq<char>, v: Seq<char>, key: Seq<char>)
    ensures
        field_value(seq![(k, v)], key) == (if k == key {
            Some(v)
        } else {
            None
        }),
{
    assert(seq![(k, v)].drop_first() =~= Seq::<(Seq<char>, Seq<char>)>::empty());
    assert(field_value(Seq::<(Seq<char>, Seq<char>)>::empty(), key) is None);
}

pub open spec fn opt_text(v: Option<String>) -> Option<Seq<char>> {
    match v {
        Some(s) => Some(s@),
        None => None,
    }
}

/// The paging fields carry each argument under its own name: `cursor`,
/// `latest` (fetch messages older than it) and `oldest` (fetch messages
/// newer than it) each present exactly when given, `limit` in decimal, and
/// `inclusive=true` only when asked.
pub proof fn law_paging_fields_name_their_arguments(
    cursor: Option<String>,
    latest: Option<String>,
    oldest: Option<String>,
    limit: Option<u32>,
    inclusive: bool,
)
    ensures
        field_value(paging_fields(cursor, latest, oldest, limit, inclusive), "cursor"@) == opt_text(cursor),
        field_value(paging_fields(cursor, latest, oldest, limit, inclusive), "latest"@) == opt_text(latest),
        field_value(paging_fields(cursor, latest, oldest, limit, inclusive), "oldest"@) == opt_text(oldest),
        field_value(paging_fields(cursor, latest, oldest, limit, inclusive), "limit"@) == (match limit {
            Some(n) => Some(text::decimal(n as nat)),
            None => None,
        }),
        field_value(paging_fields(cursor, latest, oldest, limit, inclusive), "inclusive"@) == (if inclusive {
            Some("true"@)
        } else {
            None
        }),
{
    reveal_strlit("cursor");
    reveal_strlit("latest");
    reveal_strlit("oldest");
    reveal_strlit("limit");
    reveal_strlit("inclusive");
    reveal_strlit("true");
    let c = opt_field("cursor"@, cursor);
    let l = opt_field("latest"@, latest);
    let o = opt_field("oldest"@, oldest);
    let n = opt_decimal_field("limit"@, limit);
    let i: Seq<(Seq<char>, Seq<char>)> = if inclusive {
        seq![("inclusive"@, "true"@)]
    } else {
        Seq::empty()
    };
    assert(paging_fields(cursor, latest, oldest, limit, inclusive) == c + l + o + n + i);
    assert("cursor"@[0] == 'c' && "latest"@[0] == 'l' && "oldest"@[0] == 'o' && "limit"@.len() == 5
        && "inclusive"@.len() == 9 && "cursor"@.len() == 6 && "latest"@[1] == 'a');
    assert("limit"@[1] == 'i');
    lemma_paging_lookup(c, l, o, n, i, "cursor"@);
    lemma_paging_lookup(c, l, o, n, i, "latest"@);
    lemma_paging_lookup(c, l, o, n, i, "oldest"@);
    lemma_paging_lookup(c, l, o, n, i, "limit"@);
    lemma_paging_lookup(c, l, o, n, i, "inclusive"@);
    lemma_opt_field_value("cursor"@, cursor, "latest"@);
    lemma_opt_field_value("cursor"@, cursor, "oldest"@);
    lemma_opt_field_value("cursor"@, cursor, "limit"@);
    lemma_opt_field_value("cursor"@, cursor, "inclusive"@);
    lemma_opt_field_value("cursor"@, cursor, "cursor"@);
    lemma_opt_field_value("latest"@, latest, "cursor"@);
    lemma_opt_field_value("oldest"@, oldest, "cursor"@);
    lemma_opt_field_value("oldest"@, oldest, "latest"@);
    lemma_opt_field_value("latest"@, latest, "latest"@);
    lemma_opt_field_value("latest"@, latest, "oldest"@);
    lemma_opt_field_value("latest"@, latest, "limit"@);
    lemma_opt_field_value("latest"@, latest, "inclusive"@);
    lemma_opt_field_value("oldest"@, oldest, "oldest"@);
    lemma_opt_field_value("oldest"@, oldest, "limit"@);
    lemma_opt_field_value("oldest"@, oldest, "inclusive"@);
    match limit {
        Some(x) => {
            lemma_field_value_one("limit"@, text::decimal(x as nat), "cursor"@);
            lemma_field_value_one("limit"@, text::decimal(x as nat), "latest"@);
            lemma_field_value_one("limit"@, text::decimal(x as nat), "oldest"@);
            lemma_field_value_one("limit"@, text::decimal(x as nat), "limit"@);
            lemma_field_value_one("limit"@, text::decimal(x as nat), "inclusive"@);
        },
        None => {},
    }
    if inclusive {
        lemma_field_value_one("inclusive"@, "true"@, "cursor"@);
        lemma_field_value_one("inclusive"@, "true"@, "latest"@);
        lemma_field_value_one("inclusive"@, "true"@, "oldest"@);
        lemma_field_value_one("inclusive"@, "true"@, "limit"@);
        lemma_field_value_one("inclusive"@, "true"@, "inclusive"@);
    }
}

/// The first field named `key` in five field lists laid end to end.
proof fn lemma_paging_lookup(
    c: Seq<(Seq<char>, Seq<char>)>,
    l: Seq<(Seq<char>, Seq<char>)>,
    o: Seq<(Seq<char>, Seq<char>)>,
    n: Seq<(Seq<char>, Seq<char>)>,
    i: Seq<(Seq<char>, Seq<char>)>,
    key: Seq<char>,
)
    ensures
        field_value(c + l + o + n + i, key) == (if field_value(c, key) is Some {
            field_value(c, key)
        } else if field_value(l, key) is Some {
            field_value(l, key)
        } else if field_value(o, key) is Some {
            field_value(o, key)
        } else if field_value(n, key) is Some {
            field_value(n, key)
        } else {
            field_value(i, key)
        }),
{
    lemma_field_value_append(c + l + o + n, i, key);
    lemma_field_value_append(c + l + o, n, key);
    lemma_field_value_append(c + l, o, key);
    lemma_field_value_append(c, l, key);
}

proof fn lemma_opt_field_value(k: Seq<char>, v: Option<String>, key: Seq<char>)
    ensures
        field_value(opt_field(k, v), key) == (if k == key {
            opt_text(v)
        } else {
            None
        }),
{
    match v {
        Some(x) => lemma_field_value_one(k, x@, key),
        None => {},
    }
}

/// A history request names its channel and carries each paging argument
/// under its own name: `oldest` asks for messages newer than it, `latest`
/// for messages older than it.
pub proof fn law_history_request_fields(r: FormRequest, args: HistoryArgs)
    requires
        is_request(
            r,
            "conversations.history"@,
            seq![("channel"@, args.channel@)] + paging_fields(
                args.cursor,
                args.latest,
                args.oldest,
                args.limit,
                args.inclusive,
            ),
        ),
    ensures
        field_value(pairs_view(r.fields@), "channel"@) == Some(args.channel@),
        field_value(pairs_view(r.fields@), "oldest"@) == opt_text(args.oldest),
        field_value(pairs_view(r.fields@), "latest"@) == opt_text(args.latest),
        field_value(pairs_view(r.fields@), "cursor"@) == opt_text(args.cursor),
{
    reveal_strlit("channel");
    reveal_strlit("cursor");
    reveal_strlit("latest");
    reveal_strlit("oldest");
    assert("channel"@ != "oldest"@ && "channel"@ != "latest"@ && "channel"@ != "cursor"@) by {
        assert("channel"@.len() != "oldest"@.len());
        assert("channel"@.len() != "latest"@.len());
        assert("channel"@.len() != "cursor"@.len());
    }
    let p = paging_fields(args.cursor, args.latest, args.oldest, args.limit, args.inclusive);
    law_paging_fields_name_their_arguments(args.cursor, args.latest, args.oldest, args.limit, args.inclusive);
    lemma_field_value_append(seq![("channel"@, args.channel@)], p, "channel"@);
    lemma_field_value_append(seq![("channel"@, args.channel@)], p, "oldest"@);
    lemma_field_value_append(seq![("channel"@, args.channel@)], p, "latest"@);
    lemma_field_value_append(seq![("channel"@, args.channel@)], p, "cursor"@);
    lemma_field_value_one("channel"@, args.channel@, "channel"@);
    lemma_field_value_one("channel"@, args.channel@, "oldest"@);
    lemma_field_value_one("channel"@, args.channel@, "latest"@);
    lemma_field_value_one("channel"@, args.channel@, "cursor"@);
}

/// A replies request names its channel and thread and carries each paging
/// argument under its own name.
pub proof fn law_replies_request_fields(r: FormRequest, args: RepliesArgs)
    requires
        is_request(
            r,
            "conversations.replies"@,
            seq![("channel"@, args.channel@), ("ts"@, args.ts@)] + paging_fields(
                args.cursor,
                args.latest,
                args.oldest,
                args.limit,
                args.inclusive,
            ),
        ),
    ensures
        field_value(pairs_view(r.fields@), "channel"@) == Some(args.channel@),
        field_value(pairs_view(r.fields@), "ts"@) == Some(args.ts@),
        field_value(pairs_view(r.fields@), "oldest"@) == opt_text(args.oldest),
        field_value(pairs_view(r.fields@), "latest"@) == opt_text(args.latest),
        field_value(pairs_view(r.fields@), "cursor"@) == opt_text(args.cursor),
{
    reveal_strlit("channel");
    reveal_strlit("ts");
    reveal_strlit("cursor");
    reveal_strlit("latest");
    reveal_strlit("oldest");
    assert("channel"@ != "oldest"@ && "channel"@ != "latest"@ && "channel"@ != "cursor"@ && "channel"@ != "ts"@) by {
        assert("channel"@.len() != "oldest"@.len());
        assert("channel"@.len() != "latest"@.len());
        assert("channel"@.len() != "cursor"@.len());
        assert("channel"@.len() != "ts"@.len());
    }
    assert("ts"@ != "oldest"@ && "ts"@ != "latest"@ && "ts"@ != "cursor"@) by {
        assert("ts"@.len() != "oldest"@.len());
        assert("ts"@.len() != "latest"@.len());
        assert("ts"@.len() != "cursor"@.len());
    }
    let head = seq![("channel"@, args.channel@), ("ts"@, args.ts@)];
    let p = paging_fields(args.cursor, args.latest, args.oldest, args.limit, args.inclusive);
    law_paging_fields_name_their_arguments(args.cursor, args.latest, args.oldest, args.limit, args.inclusive);
    assert(head == seq![("channel"@, args.channel@)] + seq![("ts"@, args.ts@)]);
    let keys = seq!["channel"@, "ts"@, "oldest"@, "latest"@, "cursor"@];
    assert forall|key: Seq<char>| #[trigger] keys.contains(key) implies field_value(head + p, key) == (
    if key == "channel"@ {
        Some(args.channel@)
    } else if key == "ts"@ {
        Some(args.ts@)
    } else {
        field_value(p, key)
    }) by {
        lemma_field_value_append(head, p, key);
        lemma_field_value_append(seq![("channel"@, args.channel@)], seq![("ts"@, args.ts@)], key);
        lemma_field_value_one("channel"@, args.channel@, key);
        lemma_field_value_one("ts"@, args.ts@, key);
    }
    assert(keys[0] == "channel"@ && keys[1] == "ts"@ && keys[2] == "oldest"@ && keys[3] == "latest"@ && keys[4] == "cursor"@);
    assert(keys.contains("channel"@) && keys.contains("ts"@) && keys.contains("oldest"@) && keys.contains("latest"@)
        && keys.contains("cursor"@));
}

} // verus!

//! Names, avatars and text shown for users, channels and messages.

use vstd::prelude::*;

use crate::models::{Channel, Message, MessageIcons, User};
use crate::text;

verus! {

broadcast use vstd::string::group_string_axioms;

/// The first present value among four candidates.
pub open spec fn first_of(
    a: Option<Seq<char>>,
    b: Option<Seq<char>>,
    c: Option<Seq<char>>,
    d: Option<Seq<char>>,
) -> Option<Seq<char>> {
    if a is Some {
        a
    } else if b is Some {
        b
    } else if c is Some {
        c
    } else {
        d
    }
}

/// The name shown for a user: profile display name, profile real name,
/// real name, user name (each trimmed, blanks skipped), else the raw id.
pub open spec fn display_name_spec(user: Option<User>, user_id: Seq<char>) -> Seq<char> {
    match user {
        None => user_id,
        Some(u) => {
            let (dn, rn) = match u.profile {
                Some(p) => (text::ne(p.display_name), text::ne(p.real_name)),
                None => (None, None),
            };
            match first_of(dn, rn, text::ne(u.real_name), text::ne(u.name)) {
                Some(n) => n,
                None => user_id,
            }
        },
    }
}

pub fn display_name(user: Option<&User>, user_id: &str) -> (r: String)
    ensures
        r@ == display_name_spec(match user {
            Some(u) => Some(*u),
            None => None,
        }, user_id@),
{
    let u = match user {
        None => return text::owned(user_id),
        Some(u) => u,
    };
    if let Some(profile) = &u.profile {
        if let Some(dn) = text::ne_field(&profile.display_name) {
            return text::owned(dn);
        }
        if let Some(rn) = text::ne_field(&profile.real_name) {
            return text::owned(rn);
        }
    }
    if let Some(rn) = text::ne_field(&u.real_name) {
        return text::owned(rn);
    }
    if let Some(name) = text::ne_field(&u.name) {
        return text::owned(name);
    }
    text::owned(user_id)
}

/// The first non-blank candidate, trimmed.
pub open spec fn first_ne(c: Seq<Option<String>>) -> Option<Seq<char>>
    decreases c.len(),
{
    if c.len() == 0 {
        None
    } else if text::ne(c[0]) is Some {
        text::ne(c[0])
    } else {
        first_ne(c.drop_first())
    }
}

/// Some candidate is not blank exactly when `first_ne` finds one.
pub proof fn lemma_first_ne_some(c: Seq<Option<String>>)
    ensures
        (first_ne(c) is Some) == (exists|k: int| 0 <= k < c.len() && (#[trigger] text::ne(c[k])) is Some),
    decreases c.len(),
{
    if c.len() > 0 {
        lemma_first_ne_some(c.drop_first());
        if text::ne(c[0]) is None {
            if exists|k: int| 0 <= k < c.len() && (#[trigger] text::ne(c[k])) is Some {
                let k = choose|k: int| 0 <= k < c.len() && (#[trigger] text::ne(c[k])) is Some;
                assert(c.drop_first()[k - 1] == c[k]);
            }
            if exists|k: int| 0 <= k < c.drop_first().len() && (#[trigger] text::ne(c.drop_first()[k])) is Some {
                let k = choose|k: int| 0 <= k < c.drop_first().len() && (#[trigger] text::ne(c.drop_first()[k])) is Some;
                assert(c.drop_first()[k] == c[k + 1]);
            }
        }
    }
}

/// `first_ne` of three candidates.
pub proof fn lemma_first_ne3(a: Option<String>, b: Option<String>, c: Option<String>)
    ensures
        first_ne(seq![a, b, c]) == (if text::ne(a) is Some {
            text::ne(a)
        } else if text::ne(b) is Some {
            text::ne(b)
        } else {
            text::ne(c)
        }),
{
    reveal_with_fuel(first_ne, 4);
    let s = seq![a, b, c];
    assert(s[0] == a);
    assert(s.drop_first() =~= seq![b, c]);
    assert(seq![b, c][0] == b);
    assert(seq![c][0] == c);
    assert(seq![b, c].drop_first() =~= seq![c]);
    assert(seq![c].drop_first() =~= Seq::<Option<String>>::empty());
    assert(s.drop_first().drop_first() =~= seq![c]);
    assert(s.drop_first().drop_first().drop_first() =~= Seq::<Option<String>>::empty());
}

/// `first_ne` of four candidates.
pub proof fn lemma_first_ne4(a: Option<String>, b: Option<String>, c: Option<String>, d: Option<String>)
    ensures
        first_ne(seq![a, b, c, d]) == (if text::ne(a) is Some {
            text::ne(a)
        } else if text::ne(b) is Some {
            text::ne(b)
        } else if text::ne(c) is Some {
            text::ne(c)
        } else {
            text::ne(d)
        }),
{
    let s = seq![a, b, c, d];
    assert(s[0] == a);
    assert(s.drop_first() =~= seq![b, c, d]);
    lemma_first_ne3(b, c, d);
}

/// Picks the first non-blank string among the candidates, trimmed.
fn pick_first<'a>(c: &Vec<&'a Option<String>>) -> (r: Option<&'a str>)
    ensures
        text::str_opt(r) == first_ne(c@.map_values(|x: &Option<String>| *x)),
{
    let ghost all = c@.map_values(|x: &Option<String>| *x);
    let mut i: usize = 0;
    assert(all.skip(0) =~= all);
    while i < c.len()
        invariant
            i <= c@.len(),
            all == c@.map_values(|x: &Option<String>| *x),
            first_ne(all) == first_ne(all.skip(i as int)),
        decreases c.len() - i,
    {
        assert(all.skip(i as int).drop_first() =~= all.skip(i + 1));
        assert(all.skip(i as int)[0] == *c@[i as int]);
        if let Some(v) = text::ne_field(c[i]) {
            return Some(v);
        }
        i = i + 1;
    }
    None
}

pub open spec fn avatar_candidates(p: crate::models::UserProfile) -> Seq<Option<String>> {
    seq![p.image_48, p.image_72, p.image_32, p.image_24, p.image_192, p.image_512, p.image_original]
}

pub open spec fn profile_image_candidates(p: crate::models::UserProfile) -> Seq<Option<String>> {
    seq![p.image_original, p.image_512, p.image_192, p.image_72, p.image_48, p.image_32, p.image_24]
}

pub open spec fn icon_candidates(i: MessageIcons) -> Seq<Option<String>> {
    seq![i.image_48, i.image_72, i.image_64, i.image_36, i.image_192, i.image_512, i.image_original, i.icon_url]
}

/// A user has a full-size profile image exactly when it has an avatar: both
/// look through the same seven image sizes, in different orders.
pub proof fn law_profile_image_iff_avatar(user: User)
    ensures
        (match user.profile {
            Some(p) => first_ne(profile_image_candidates(p)),
            None => None,
        } is Some) == (match user.profile {
            Some(p) => first_ne(avatar_candidates(p)),
            None => None,
        } is Some),
{
    if let Some(p) = user.profile {
        let a = avatar_candidates(p);
        let b = profile_image_candidates(p);
        lemma_first_ne_some(a);
        lemma_first_ne_some(b);
        if exists|k: int| 0 <= k < a.len() && (#[trigger] text::ne(a[k])) is Some {
            let k = choose|k: int| 0 <= k < a.len() && (#[trigger] text::ne(a[k])) is Some;
            let j = if k == 0 { 4int } else if k == 1 { 3 } else if k == 2 { 5 } else if k == 3 { 6 } else if k == 4 { 2 } else if k == 5 { 1 } else { 0 };
            assert(b[j] == a[k]);
        }
        if exists|k: int| 0 <= k < b.len() && (#[trigger] text::ne(b[k])) is Some {
            let k = choose|k: int| 0 <= k < b.len() && (#[trigger] text::ne(b[k])) is Some;
            let j = if k == 0 { 6int } else if k == 1 { 5 } else if k == 2 { 4 } else if k == 3 { 1 } else if k == 4 { 0 } else if k == 5 { 2 } else { 3 };
            assert(a[j] == b[k]);
        }
    }
}

/// A small avatar for a user: the 48px image first, then other sizes.
pub fn user_avatar_url(user: &User) -> (r: Option<&str>)
    ensures
        text::str_opt(r) == match user.profile {
            Some(p) => first_ne(avatar_candidates(p)),
            None => None,
        },
{
    let p = match &user.profile {
        Some(p) => p,
        None => return None,
    };
    let c = vec![
        &p.image_48,
        &p.image_72,
        &p.image_32,
        &p.image_24,
        &p.image_192,
        &p.image_512,
        &p.image_original,
    ];
    assert(c@.map_values(|x: &Option<String>| *x) =~= avatar_candidates(*p));
    pick_first(&c)
}

/// The largest profile image of a user.
pub fn user_profile_image_url(user: &User) -> (r: Option<&str>)
    ensures
        text::str_opt(r) == match user.profile {
            Some(p) => first_ne(profile_image_candidates(p)),
            None => None,
        },
{
    let p = match &user.profile {
        Some(p) => p,
        None => return None,
    };
    let c = vec![
        &p.image_original,
        &p.image_512,
        &p.image_192,
        &p.image_72,
        &p.image_48,
        &p.image_32,
        &p.image_24,
    ];
    assert(c@.map_values(|x: &Option<String>| *x) =~= profile_image_candidates(*p));
    pick_first(&c)
}

/// The icon of a bot or app message.
pub fn message_icon_url(icons: &MessageIcons) -> (r: Option<&str>)
    ensures
        text::str_opt(r) == first_ne(icon_candidates(*icons)),
{
    let c = vec![
        &icons.image_48,
        &icons.image_72,
        &icons.image_64,
        &icons.image_36,
        &icons.image_192,
        &icons.image_512,
        &icons.image_original,
        &icons.icon_url,
    ];
    assert(c@.map_values(|x: &Option<String>| *x) =~= icon_candidates(*icons));
    pick_first(&c)
}

/// Who a bot avatar belongs to: the bot id, else the bot profile's id, else
/// its user id.
pub open spec fn bot_source(msg: Message) -> Option<Seq<char>> {
    if msg.bot_id is Some {
        Some(msg.bot_id->0@)
    } else {
        match msg.bot_profile {
            Some(p) => if p.id is Some {
                Some(p.id->0@)
            } else {
                text::string_opt(p.user_id)
            },
            None => None,
        }
    }
}

/// The bot avatar image: the bot profile's icons, else the message's icons.
pub open spec fn bot_icon(msg: Message) -> Option<Seq<char>> {
    let from_profile = match msg.bot_profile {
        Some(p) => match p.icons {
            Some(i) => first_ne(icon_candidates(i)),
            None => None,
        },
        None => None,
    };
    if from_profile is Some {
        from_profile
    } else {
        match msg.icons {
            Some(i) => first_ne(icon_candidates(i)),
            None => None,
        }
    }
}

/// `bot-icon:<source>:<url>`, the cache key of a bot avatar.
pub open spec fn bot_avatar_key(source: Seq<char>, url: Seq<char>) -> Seq<char> {
    seq!['b', 'o', 't', '-', 'i', 'c', 'o', 'n', ':'] + source + seq![':'] + url
}

/// A bot message's avatar: its cache key and its image URL.
pub fn message_bot_avatar(msg: &Message) -> (r: Option<(String, String)>)
    ensures
        match r {
            Some((key, url)) => bot_source(*msg) is Some && bot_icon(*msg) == Some(url@) && key@
                == bot_avatar_key(bot_source(*msg)->0, url@),
            None => bot_source(*msg) is None || bot_icon(*msg) is None,
        },
{
    let source: &str = match &msg.bot_id {
        Some(b) => b.as_str(),
        None => match &msg.bot_profile {
            Some(p) => match &p.id {
                Some(id) => id.as_str(),
                None => match &p.user_id {
                    Some(u) => u.as_str(),
                    None => return None,
                },
            },
            None => return None,
        },
    };
    let from_profile = match &msg.bot_profile {
        Some(p) => match &p.icons {
            Some(i) => message_icon_url(i),
            None => None,
        },
        None => None,
    };
    let url = match from_profile {
        Some(u) => u,
        None => match &msg.icons {
            Some(i) => match message_icon_url(i) {
                Some(u) => u,
                None => return None,
            },
            None => return None,
        },
    };
    let mut key = String::new();
    text::push_str(&mut key, "bot-icon:");
    text::push_str(&mut key, source);
    text::push_char(&mut key, ':');
    text::push_str(&mut key, url);
    proof {
        reveal_strlit("bot-icon:");
    }
    assert(key@ =~= bot_avatar_key(source@, url@));
    Some((key, text::owned(url)))
}

/// `#name` for a channel, `name` for a DM, else "direct message" or the id.
pub open spec fn channel_label_spec(c: Channel) -> Seq<char> {
    match text::ne(c.name) {
        Some(n) => if c.is_im {
            n
        } else {
            seq!['#'] + n
        },
        None => if c.is_im {
            seq!['d', 'i', 'r', 'e', 'c', 't', ' ', 'm', 'e', 's', 's', 'a', 'g', 'e']
        } else {
            c.id@
        },
    }
}

pub fn channel_label(channel: &Channel) -> (r: String)
    ensures
        r@ == channel_label_spec(*channel),
{
    if let Some(name) = text::ne_field(&channel.name) {
        if channel.is_im {
            return text::owned(name);
        }
        let mut s = String::new();
        text::push_char(&mut s, '#');
        text::push_str(&mut s, name);
        assert(s@ =~= seq!['#'] + name@);
        return s;
    }
    if channel.is_im {
        let s = text::owned("direct message");
        proof {
            reveal_strlit("direct message");
        }
        assert(s@ =~= seq!['d', 'i', 'r', 'e', 'c', 't', ' ', 'm', 'e', 's', 's', 'a', 'g', 'e']);
        return s;
    }
    channel.id.clone()
}

/// The channel's trimmed name, or its id when the name is blank.
pub open spec fn channel_name_spec(c: Channel) -> Seq<char> {
    match text::ne(c.name) {
        Some(n) => n,
        None => c.id@,
    }
}

pub fn channel_name(c: &Channel) -> (r: String)
    ensures
        r@ == channel_name_spec(*c),
{
    match text::ne_field(&c.name) {
        Some(n) => text::owned(n),
        None => c.id.clone(),
    }
}

/// The other user of a DM: the channel's user, else the `user` or
/// `user_id` extra field when it is a string.
pub open spec fn dm_user_id_spec(c: Channel) -> Option<Seq<char>> {
    if c.user is Some {
        Some(c.user->0@)
    } else if crate::models::lookup_str(c.extra@, seq!['u', 's', 'e', 'r']) is Some {
        crate::models::lookup_str(c.extra@, seq!['u', 's', 'e', 'r'])
    } else {
        crate::models::lookup_str(c.extra@, seq!['u', 's', 'e', 'r', '_', 'i', 'd'])
    }
}

pub fn dm_user_id(channel: &Channel) -> (r: Option<&str>)
    ensures
        text::str_opt(r) == dm_user_id_spec(*channel),
{
    if let Some(user) = &channel.user {
        return Some(user.as_str());
    }
    proof {
        reveal_strlit("user");
        reveal_strlit("user_id");
    }
    assert("user"@ =~= seq!['u', 's', 'e', 'r']);
    assert("user_id"@ =~= seq!['u', 's', 'e', 'r', '_', 'i', 'd']);
    if let Some(user) = crate::models::get_str(&channel.extra, "user") {
        return Some(user);
    }
    crate::models::get_str(&channel.extra, "user_id")
}

/// The text shown for a message: its text when not blank; nothing when it
/// only carries files or attachments; else `[subtype]`, `[rich message]`
/// for block-only messages, or `[no text]`.
pub open spec fn message_text_spec(msg: Message) -> Seq<char> {
    match text::ne(msg.text) {
        Some(t) => t,
        None => if msg.files@.len() > 0 || msg.attachments@.len() > 0 {
            Seq::empty()
        } else {
            match text::ne(msg.subtype) {
                Some(st) => seq!['['] + st + seq![']'],
                None => if msg.blocks@.len() > 0 {
                    "[rich message]"@
                } else {
                    "[no text]"@
                },
            }
        },
    }
}

pub fn message_text(msg: &Message) -> (r: String)
    ensures
        r@ == message_text_spec(*msg),
{
    if let Some(t) = text::ne_field(&msg.text) {
        return text::owned(t);
    }
    if msg.files.len() > 0 || msg.attachments.len() > 0 {
        return String::new();
    }
    if let Some(st) = text::ne_field(&msg.subtype) {
        let mut s = String::new();
        text::push_char(&mut s, '[');
        text::push_str(&mut s, st);
        text::push_char(&mut s, ']');
        assert(s@ =~= seq!['['] + st@ + seq![']']);
        return s;
    }
    if msg.blocks.len() > 0 {
        return text::owned("[rich message]");
    }
    text::owned("[no text]")
}

pub open spec fn is_subtype(msg: Message, name: Seq<char>) -> bool {
    text::string_opt(msg.subtype) == Some(name)
}

/// A `message_replied` envelope shows the message it wraps, completed with
/// the envelope's thread data where the inner message lacks it.
pub open spec fn visible_message_spec(msg: Message) -> Message {
    if !is_subtype(msg, "message_replied"@) || msg.message is None {
        msg
    } else {
        let n = *msg.message->0;
        Message {
            team: crate::timeline::or_else(n.team, msg.team),
            channel: crate::timeline::or_else(n.channel, msg.channel),
            reply_count: crate::timeline::or_else(n.reply_count, msg.reply_count),
            reply_users_count: crate::timeline::or_else(n.reply_users_count, msg.reply_users_count),
            latest_reply: crate::timeline::or_else(n.latest_reply, msg.latest_reply),
            reply_users: if n.reply_users@.len() == 0 {
                msg.reply_users
            } else {
                n.reply_users
            },
            reactions: if n.reactions@.len() == 0 {
                msg.reactions
            } else {
                n.reactions
            },
            files: if n.files@.len() == 0 {
                msg.files
            } else {
                n.files
            },
            attachments: if n.attachments@.len() == 0 {
                msg.attachments
            } else {
                n.attachments
            },
            ..n
        }
    }
}

/// Compares an optional field with a fixed string.
fn field_is(f: &Option<String>, s: &str) -> (r: bool)
    ensures
        r == (text::string_opt(*f) == Some(s@)),
{
    match f {
        Some(x) => text::str_eq(x.as_str(), s),
        None => false,
    }
}

pub fn visible_message(msg: Message) -> (r: Message)
    ensures
        r == visible_message_spec(msg),
{
    if !field_is(&msg.subtype, "message_replied") {
        return msg;
    }
    let mut msg = msg;
    let inner = msg.message.take();
    let mut nested = match inner {
        Some(b) => *b,
        None => return msg,
    };
    let Message {
        team,
        channel,
        reply_count,
        reply_users_count,
        latest_reply,
        reply_users,
        reactions,
        files,
        attachments,
        ..
    } = msg;
    nested.team = crate::timeline::prefer(nested.team, team);
    nested.channel = crate::timeline::prefer(nested.channel, channel);
    nested.reply_count = crate::timeline::prefer(nested.reply_count, reply_count);
    nested.reply_users_count = crate::timeline::prefer(nested.reply_users_count, reply_users_count);
    nested.latest_reply = crate::timeline::prefer(nested.latest_reply, latest_reply);
    if nested.reply_users.len() == 0 {
        nested.reply_users = reply_users;
    }
    if nested.reactions.len() == 0 {
        nested.reactions = reactions;
    }
    if nested.files.len() == 0 {
        nested.files = files;
    }
    if nested.attachments.len() == 0 {
        nested.attachments = attachments;
    }
    nested
}

/// Thread replies stay out of the channel timeline, except broadcasts.
pub open spec fn is_channel_timeline_visible_spec(msg: Message) -> bool {
    if is_subtype(msg, "message_replied"@) {
        false
    } else {
        match (msg.thread_ts, msg.ts) {
            (Some(root), Some(ts)) => if root@ != ts@ {
                is_subtype(msg, "thread_broadcast"@)
            } else {
                true
            },
            _ => true,
        }
    }
}

pub fn is_channel_timeline_visible(msg: &Message) -> (r: bool)
    ensures
        r == is_channel_timeline_visible_spec(*msg),
{
    if field_is(&msg.subtype, "message_replied") {
        return false;
    }
    match (&msg.thread_ts, &msg.ts) {
        (Some(root), Some(ts)) => {
            if !text::str_eq(root.as_str(), ts.as_str()) {
                field_is(&msg.subtype, "thread_broadcast")
            } else {
                true
            }
        },
        _ => true,
    }
}

} // verus!

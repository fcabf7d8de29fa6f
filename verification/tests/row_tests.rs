use snack::attachments::attachment_text;
use snack::panels::format_profile_date;
use snack::files::{FetchAuth, MediaKind, fetch_auth, media_kind, row_title};
use snack::emoji::{EmojiTextToken, emoji_names_in_text, emoji_text_tokens, visit_emoji_names_in_text};
use snack::message_view::{
    RowAction, RowPlan, VISIBLE_MESSAGE_LIMIT, can_edit, profile_user, row_actions, thread_summary_count,
    timeline_plan,
};
use snack::models::{Attachment, AttachmentField, File, JsonScalar, JsonValue, Message, Reaction};
use snack::state::{Workspace, WorkspaceSession};

fn workspace() -> Workspace {
    Workspace::from_session(&WorkspaceSession {
        team_id: "T".into(),
        enterprise_id: None,
        user_id: "U_SELF".into(),
        name: "Test".into(),
        url: "https://test.slack.com".into(),
        token: "xoxc".into(),
    })
}

fn own(ts: &str) -> Message {
    Message { user: Some("U_SELF".into()), ts: Some(ts.into()), ..Default::default() }
}

#[test]
fn own_sent_message_offers_every_action_in_order() {
    let ws = workspace();
    let m = own("1.0");
    assert!(can_edit(&ws, &m, false));
    assert_eq!(
        row_actions(&ws, &m, false, false, true, false, true),
        [RowAction::Reply, RowAction::Copy, RowAction::Edit, RowAction::Delete]
    );
}

#[test]
fn row_actions_follow_context() {
    let ws = workspace();
    let m = own("1.0");
    // Not hovered, or being edited: no bar at all.
    assert!(row_actions(&ws, &m, false, false, false, false, true).is_empty());
    assert!(row_actions(&ws, &m, false, false, true, true, true).is_empty());
    // Inside a thread pane there is no Reply; nothing to copy, no Copy.
    assert_eq!(
        row_actions(&ws, &m, false, true, true, false, false),
        [RowAction::Edit, RowAction::Delete]
    );
    // A pending message cannot be edited yet.
    assert!(!can_edit(&ws, &m, true));
    assert_eq!(row_actions(&ws, &m, true, false, true, false, false), [RowAction::Reply]);
    // Someone else's message, or a bot's, cannot be edited.
    let other = Message { user: Some("U2".into()), ..own("2.0") };
    assert!(!can_edit(&ws, &other, false));
    let bot = Message { bot_id: Some("B1".into()), ..own("3.0") };
    assert!(!can_edit(&ws, &bot, false));
    // Without a timestamp nothing can be replied to or edited.
    let unsent = Message { ts: None, ..own("") };
    assert!(row_actions(&ws, &unsent, false, false, true, false, false).is_empty());
}

#[test]
fn profile_opens_only_for_human_authors() {
    let m = own("1.0");
    assert_eq!(profile_user(&m), Some("U_SELF"));
    let bot = Message { bot_id: Some("B1".into()), ..own("1.0") };
    assert_eq!(profile_user(&bot), None);
    assert_eq!(profile_user(&Message::default()), None);
}

#[test]
fn thread_summary_shows_replies_outside_threads() {
    let root = Message { reply_count: Some(3), ..own("1.0") };
    assert_eq!(thread_summary_count(&root, false), Some(3));
    assert_eq!(thread_summary_count(&root, true), None);
    let none = Message { reply_count: Some(0), ..own("1.0") };
    assert_eq!(thread_summary_count(&none, false), None);
    let unsent = Message { reply_count: Some(2), ts: None, ..Default::default() };
    assert_eq!(thread_summary_count(&unsent, false), None);
}

#[test]
fn attachment_text_trims_and_skips_blanks() {
    let att = Attachment {
        service_name: Some(" GitHub ".into()),
        author_name: Some("   ".into()),
        title: Some("Issue 7".into()),
        title_link: Some("https://github.com/x/y/issues/7".into()),
        text: Some("Body".into()),
        fields: vec![
            AttachmentField { title: Some("Status".into()), value: Some("open".into()), ..Default::default() },
            AttachmentField { title: Some("Labels".into()), value: None, ..Default::default() },
            AttachmentField { title: None, value: Some(" bug ".into()), ..Default::default() },
            AttachmentField { title: Some(" ".into()), value: None, ..Default::default() },
        ],
        ..Default::default()
    };
    let t = attachment_text(&att);
    assert_eq!(t.service.as_deref(), Some("GitHub"));
    assert_eq!(t.author, None);
    assert_eq!(t.title.as_deref(), Some("Issue 7"));
    assert_eq!(t.title_link.as_deref(), Some("https://github.com/x/y/issues/7"));
    assert_eq!(t.body.as_deref(), Some("Body"));
    assert_eq!(t.fields, ["Status: open", "Labels", "bug"]);

    let untitled = Attachment { title_link: Some("https://example.com".into()), ..Default::default() };
    assert_eq!(attachment_text(&untitled).title_link, None);
}

#[test]
fn file_rows_pick_title_viewer_and_auth() {
    let video = File {
        name: Some("clip.mp4".into()),
        title: Some("Holiday clip".into()),
        mimetype: Some("video/mp4".into()),
        ..Default::default()
    };
    assert_eq!(row_title(&video), "clip.mp4");
    assert_eq!(media_kind(&video), Some(MediaKind::Video));
    let picture = File { name: Some("  ".into()), title: Some("Diagram".into()), mimetype: Some("image/png".into()), ..Default::default() };
    assert_eq!(row_title(&picture), "Diagram");
    assert_eq!(media_kind(&picture), Some(MediaKind::Image));
    let doc = File { mimetype: Some("application/pdf".into()), ..Default::default() };
    assert_eq!(row_title(&doc), "file");
    assert_eq!(media_kind(&doc), None);
    assert_eq!(fetch_auth("https://files.slack.com/files-pri/T1-F1/a.png"), FetchAuth::Slack);
    assert_eq!(fetch_auth("https://example.com/a.png"), FetchAuth::Public);
}

fn from(user: &str, ts: &str) -> Message {
    Message { user: Some(user.into()), ts: Some(ts.into()), text: Some("hi".into()), ..Default::default() }
}

#[test]
fn timeline_plan_marks_days_groups_and_edits() {
    let msgs = vec![
        from("U1", "1000.000100"),
        from("U1", "1100.000100"),
        from("U1", "1500.000100"),
        from("U1", "90000.000100"),
        Message { subtype: Some("message_replied".into()), ..from("U2", "90001.000100") },
        from("U1", "90100.000100"),
    ];
    let d1 = Some("1970-01-01".to_string());
    let d2 = Some("1970-01-02".to_string());
    let days = vec![d1.clone(), d1.clone(), d1.clone(), d2.clone(), d2.clone(), d2.clone()];
    let plan = timeline_plan(&msgs, &days, Some("90100.000100"));
    let row = |index, separator, compact, editing| RowPlan { index, separator, compact, editing };
    assert_eq!(
        plan,
        [
            row(0, true, false, false),
            row(1, false, true, false),
            row(2, false, false, false),
            row(3, true, false, false),
            row(5, false, false, true),
        ]
    );
}

#[test]
fn timeline_plan_keeps_the_latest_two_hundred() {
    let msgs: Vec<Message> = (0..250).map(|i| from("U1", &format!("{}.000100", 1000 + i * 1000))).collect();
    let days: Vec<Option<String>> = msgs.iter().map(|_| None).collect();
    let plan = timeline_plan(&msgs, &days, None);
    assert_eq!(plan.len(), VISIBLE_MESSAGE_LIMIT);
    assert_eq!(plan[0].index, 50);
    assert_eq!(plan[199].index, 249);
    assert!(plan.iter().all(|r| !r.separator && !r.compact));
}

#[test]
fn clones_copy_every_field() {
    let leaf = JsonValue { text: "1".into(), scalar: JsonScalar::Number(Some(1)), items: vec![], members: vec![] };
    let nested = JsonValue {
        text: "[1,{\"a\":1}]".into(),
        scalar: JsonScalar::Array,
        items: vec![
            leaf.clone(),
            JsonValue { text: "{\"a\":1}".into(), scalar: JsonScalar::Object, items: vec![], members: vec![("a".into(), leaf.clone())] },
        ],
        members: vec![],
    };
    let copy = nested.clone();
    assert_eq!(copy.items.len(), 2);
    assert_eq!(copy.items[1].members[0].0, "a");
    assert_eq!(copy.items[1].members[0].1.text, "1");
    let m = Message {
        reactions: vec![Reaction { name: "tada".into(), users: vec!["U1".into()], count: 1, ..Default::default() }],
        files: vec![File { name: Some("a.png".into()), ..Default::default() }],
        attachments: vec![Attachment { title: Some("T".into()), blocks: vec![nested.clone()], ..Default::default() }],
        blocks: vec![nested.clone()],
        edited: Some(leaf.clone()),
        extra: vec![("k".into(), nested.clone())],
        message: Some(Box::new(from("U2", "5.0"))),
        ..from("U1", "1.0")
    };
    let c = m.clone();
    assert_eq!(c.reactions[0].name, "tada");
    assert_eq!(c.reactions[0].users, ["U1"]);
    assert_eq!(c.files[0].name.as_deref(), Some("a.png"));
    assert_eq!(c.attachments[0].blocks[0].items.len(), 2);
    assert_eq!(c.blocks[0].items[1].members.len(), 1);
    assert_eq!(c.edited.as_ref().map(|e| e.text.as_str()), Some("1"));
    assert_eq!(c.extra[0].1.items.len(), 2);
    assert_eq!(c.message.as_ref().and_then(|n| n.user.as_deref()), Some("U2"));
}

#[test]
fn emoji_tokens_are_well_formed() {
    for s in ["", ":", "::", "a::b", ":+1: and :no way: :x_y-z:", "trail:ing:"] {
        for t in emoji_text_tokens(s) {
            match t {
                EmojiTextToken::Text(x) => assert!(!x.is_empty()),
                EmojiTextToken::Emoji(n) => {
                    assert!(!n.is_empty());
                    assert!(n.chars().all(|c| c.is_ascii_alphanumeric() || "_-+".contains(c)));
                }
            }
        }
    }
}

#[test]
fn profile_dates_read_unix_times_as_utc_dates() {
    assert_eq!(format_profile_date("1700000000").as_deref(), Some("2023-11-14"));
    assert_eq!(format_profile_date("951782400").as_deref(), Some("2000-02-29"));
    assert_eq!(format_profile_date("86399").as_deref(), Some("1970-01-01"));
    assert_eq!(format_profile_date("253402300799").as_deref(), Some("9999-12-31"));
    assert_eq!(format_profile_date("0"), None);
    assert_eq!(format_profile_date("-5"), None);
    assert_eq!(format_profile_date(" 2021-05-01 ").as_deref(), Some("2021-05-01"));
}

#[test]
fn visiting_emoji_names_sees_each_name_in_order() {
    let text = "hi :wave: and :+1: but not :two words: or :x";
    let mut seen: Vec<String> = Vec::new();
    visit_emoji_names_in_text(text, |name| seen.push(name.to_owned()));
    assert_eq!(seen, ["wave", "+1"]);
    assert_eq!(seen, emoji_names_in_text(text));
}

#[test]
fn channel_plan_reads_a_day_for_every_timestamp() {
    let msgs = vec![from("U1", "1000.000100"), from("U1", "1100.000100"), Message { ts: None, ..from("U1", "") }];
    let plan = snack::message_view::channel_timeline_plan(&msgs, None);
    assert_eq!(plan.len(), 3);
    assert!(plan[0].separator);
    assert!(plan[1].compact && !plan[1].separator);
    assert!(!plan[2].separator && !plan[2].compact);
}

use snack::activity;
use snack::clock::LocalDateTime;
use snack::composer::{
    ComposerTarget, input_id, is_previewable_image, is_video, lines, toggle_pair,
    truncate_filename,
};
use snack::dates::{date_key_text, date_label_at, hm_text, relative_label_at, zero_padded};
use snack::dms;
use snack::models::{Channel, DmEntry, Message, User};
use snack::panels::{
    conversation_involves, message_count_label, unread_messages, valid_start_date,
};
use snack::state::{Workspace, WorkspaceSession};
use snack::timeline::ChannelMessages;

fn workspace() -> Workspace {
    let mut ws = Workspace::from_session(&WorkspaceSession {
        team_id: "T".into(),
        enterprise_id: None,
        user_id: "U_SELF".into(),
        name: "Test".into(),
        url: "https://test.slack.com".into(),
        token: "xoxc-test".into(),
    });
    ws.users.push((
        "U_ANA".into(),
        User { id: "U_ANA".into(), real_name: Some("Ana".into()), ..Default::default() },
    ));
    ws
}

fn day(year: i32, month: u32, day: u32, weekday: u32, day_number: i32) -> LocalDateTime {
    LocalDateTime { year, month, day, hour: 9, minute: 5, weekday, day_number }
}

fn message(user: Option<&str>, ts: &str, text: &str) -> Message {
    Message {
        user: user.map(str::to_owned),
        ts: Some(ts.into()),
        text: Some(text.into()),
        ..Default::default()
    }
}

#[test]
fn activity_verbs_by_kind() {
    assert_eq!(activity::verb("message_reaction"), "Reacted in");
    assert_eq!(activity::verb("thread_v2"), "Thread in");
    assert_eq!(activity::verb("at_user_group"), "Group mention in");
    assert_eq!(activity::verb("at_everyone"), "Channel mention in");
    assert_eq!(activity::verb("at_user"), "Mention in");
    assert_eq!(activity::verb("keyword"), "Keyword mention in");
    assert_eq!(activity::verb("channel"), "Post in");
    assert_eq!(activity::verb("bot_dm_bundle"), "DM");
    assert_eq!(activity::verb("list_record_edited"), "Activity in");
}

#[test]
fn activity_labels() {
    let ws = workspace();
    assert_eq!(activity::first_line("\n  \n  hello there \nsecond"), "hello there");
    assert_eq!(activity::first_line("   "), "");
    assert_eq!(activity::author_label(&ws, "U_SELF"), "You");
    assert_eq!(activity::author_label(&ws, "U_ANA"), "Ana");
    assert_eq!(activity::count_label(7), "7");
    assert_eq!(activity::count_label(100), "99+");
}

#[test]
fn activity_time_labels_by_age() {
    let local = Some(day(2026, 7, 6, 0, 739_800));
    assert_eq!(activity::time_label_at("", 5_000, local), "");
    assert_eq!(activity::time_label_at("1000.000100", 1_030, local), "now");
    assert_eq!(activity::time_label_at("1000.000100", 1_060, local), "1 min");
    assert_eq!(activity::time_label_at("1000.000100", 1_000 + 59 * 60, local), "59 mins");
    assert_eq!(activity::time_label_at("1000.000100", 1_000 + 3_600, local), "1 hour");
    assert_eq!(activity::time_label_at("1000.000100", 1_000 + 5 * 3_600, local), "5 hours");
    assert_eq!(activity::time_label_at("1000.000100", 1_000 + 86_400, local), "09:05");
    assert_eq!(activity::time_label_at("1000.000100", 900, None), "1000");
}

#[test]
fn activity_in_known_dms_only() {
    let mut ws = workspace();
    ws.channels.push((
        "D1".into(),
        Channel { id: "D1".into(), is_im: true, ..Default::default() },
    ));
    ws.channels.push((
        "C1".into(),
        Channel { id: "C1".into(), is_channel: true, ..Default::default() },
    ));
    assert!(activity::is_dm_channel(&ws, Some("D1")));
    assert!(!activity::is_dm_channel(&ws, Some("C1")));
    assert!(!activity::is_dm_channel(&ws, Some("D_UNKNOWN")));
    assert!(!activity::is_dm_channel(&ws, None));
}

#[test]
fn composer_ids_lines_and_attachments() {
    assert_ne!(input_id(ComposerTarget::Channel), input_id(ComposerTarget::Thread));
    let ls: Vec<String> = lines("a\r\nb\n\nc\n").into_iter().map(|l| l.into_iter().collect()).collect();
    assert_eq!(ls, ["a", "b", "", "c"]);
    assert_eq!(toggle_pair("", "<", ">"), ("<>".into(), 1));
    assert_eq!(toggle_pair("<x>", "<", ">"), ("x".into(), 0));
    assert_eq!(truncate_filename("short.png"), "short.png");
    assert_eq!(
        truncate_filename("a-very-long-file-name-that-keeps-going.png"),
        "a-very-long-file-name-..."
    );
    assert!(is_previewable_image("/tmp/photo.JPG"));
    assert!(is_previewable_image("/tmp/anim.gif"));
    assert!(!is_previewable_image("/tmp/notes.txt"));
    assert!(is_video("/tmp/clip.mov"));
    assert!(!is_video("/tmp/clip"));
}

#[test]
fn date_formatting_with_given_clock_answers() {
    let monday = day(2026, 7, 6, 0, 739_800);
    let sunday = day(2026, 7, 5, 6, 739_799);
    let friday = day(2026, 7, 3, 4, 739_797);
    assert_eq!(zero_padded(7, 2), "07");
    assert_eq!(zero_padded(123, 2), "123");
    assert_eq!(hm_text(monday), "09:05");
    assert_eq!(date_key_text(monday), "2026-07-06");
    assert_eq!(date_label_at("1.0", Some(monday), monday), "Today");
    assert_eq!(date_label_at("1.0", Some(sunday), monday), "Yesterday");
    assert_eq!(date_label_at("1.0", Some(friday), monday), "Friday, July 3rd");
    assert_eq!(date_label_at("1.0", None, monday), "1.0");
    assert_eq!(relative_label_at("1000.0", 1_030, Some(monday), monday), "now");
    assert_eq!(relative_label_at("1000.0", 1_000 + 300, Some(monday), monday), "5m ago");
    assert_eq!(relative_label_at("1000.0", 1_000 + 2 * 86_400, Some(friday), monday), "2d ago");
    assert_eq!(
        relative_label_at("1000.0", 1_000 + 8 * 86_400, Some(friday), monday),
        "Friday, July 3rd"
    );
}

#[test]
fn dm_list_entries() {
    let mut ws = workspace();
    ws.channels.push((
        "G1".into(),
        Channel { id: "G1".into(), is_mpim: true, unread_count: Some(2), ..Default::default() },
    ));
    ws.channels.push((
        "D1".into(),
        Channel { id: "D1".into(), is_im: true, ..Default::default() },
    ));
    let group = DmEntry {
        id: "G1".into(),
        message: Some(message(Some("U_ANA"), "5.0", "hey\nthere")),
        ..Default::default()
    };
    let mine = DmEntry {
        id: "D1".into(),
        message: Some(message(Some("U_SELF"), "6.0", "ok")),
        ..Default::default()
    };
    assert_eq!(dms::channel_of(&ws, &group).map(|c| c.id.as_str()), Some("G1"));
    assert_eq!(dms::preview_line(&ws, &group, "hey\nthere"), "Ana: hey");
    assert_eq!(dms::preview_line(&ws, &mine, "ok"), "You: ok");
    assert!(dms::is_unread(&ws, &group));
    assert!(!dms::is_unread(&ws, &mine));
    assert_eq!(dms::unread_count(&ws, &group), 2);
    assert_eq!(dms::unread_count_total(&ws), 1);
    assert_eq!(dms::time_label_at("1000.0", 1_010, None), "now");
    assert_eq!(dms::time_label_at("1000.0", 1_000 + 120, None), "2 mins");
    assert_eq!(dms::time_label_at("1000.0", 1_000 + 7_200, None), "1000");
}

#[test]
fn unread_panel_readings() {
    assert_eq!(message_count_label(0, false), "No messages");
    assert_eq!(message_count_label(1, false), "1 message");
    assert_eq!(message_count_label(7, false), "7 messages");
    assert_eq!(message_count_label(56, false), "55+ messages");
    assert_eq!(message_count_label(3, true), "55+ messages");

    let mut ws = workspace();
    let mut cm = ChannelMessages::new();
    cm.messages = vec![message(None, "1.0", "old"), message(None, "2.0", "new"), message(None, "3.0", "newer")];
    cm.last_read = Some("1.0".into());
    ws.messages.push(("C1".into(), cm));
    let unread: Vec<&str> = unread_messages(&ws, "C1")
        .into_iter()
        .map(|m| m.text.as_deref().unwrap_or(""))
        .collect();
    assert_eq!(unread, ["new", "newer"]);
    assert!(unread_messages(&ws, "C_NONE").is_empty());
}

#[test]
fn profile_readings() {
    let dm = Channel { id: "D1".into(), is_im: true, user: Some("U_ANA".into()), ..Default::default() };
    assert!(conversation_involves(&dm, "U_ANA"));
    assert!(!conversation_involves(&dm, "U_BOB"));
    assert_eq!(valid_start_date(Some("2020-01-02")), Some("2020-01-02"));
    assert_eq!(valid_start_date(Some("0")), None);
    assert_eq!(valid_start_date(Some("1970-01-01")), None);
    assert_eq!(valid_start_date(Some("  ")), None);
}

use std::time::Duration;

use snack::bundle::is_app_bundle_executable;
use snack::composer::{FormatMark, wrap_selection};
use snack::keys::{
    EditorBinding, KeyKind, Mods, Motion, clipboard_binding, delete_motion_for, emacs_binding,
    format_mark_for,
};
use snack::message_view::{animated_frame_index, same_message_group_on, typing_line};
use snack::models::{Channel, Message};
use snack::mpdm::group_member_count;
use snack::selectable::{SegmentText, explode_segments};
use snack::panels::{presence_label, profile_field_text, status_parts};
use snack::state::{Presence, Workspace, WorkspaceSession, channel_display_name};

fn mods(command: bool, control: bool, shift: bool, alt: bool) -> Mods {
    Mods { command, control, shift, alt }
}

fn cmd() -> Mods {
    mods(true, false, false, false)
}

fn none() -> Mods {
    mods(false, false, false, false)
}

fn msg(user: &str, ts: &str) -> Message {
    Message {
        user: Some(user.to_owned()),
        ts: Some(ts.to_owned()),
        text: Some("hi".to_owned()),
        ..Default::default()
    }
}

fn channel(id: &str, name: &str) -> Channel {
    Channel {
        id: id.into(),
        name: Some(name.into()),
        is_channel: true,
        ..Default::default()
    }
}

fn dm(id: &str, name: &str) -> Channel {
    Channel {
        id: id.into(),
        name: Some(name.into()),
        is_im: true,
        ..Default::default()
    }
}

fn workspace(channels: Vec<Channel>) -> Workspace {
    let mut ws = Workspace::from_session(&WorkspaceSession {
        team_id: "T".into(),
        enterprise_id: None,
        user_id: "U_SELF".into(),
        name: "Test".into(),
        url: "https://test.slack.com".into(),
        token: "xoxc-test".into(),
    });
    for c in channels {
        ws.channels.push((c.id.clone(), c));
    }
    ws
}

fn find<'a>(ws: &'a Workspace, id: &str) -> &'a Channel {
    &ws.channels.iter().find(|(k, _)| k == id).unwrap().1
}

#[test]
fn recognizes_executable_inside_app_bundle() {
    assert!(is_app_bundle_executable("/tmp/Snack.app/Contents/MacOS/snack"));
    assert!(!is_app_bundle_executable("/tmp/target/debug/snack"));
}

#[test]
fn app_bundle_needs_the_macos_directory_and_app_extension() {
    assert!(!is_app_bundle_executable("/tmp/Snack.app/Contents/Linux/snack"));
    assert!(!is_app_bundle_executable("/tmp/Snack.bundle/Contents/MacOS/snack"));
    assert!(!is_app_bundle_executable("snack"));
}

#[test]
fn typing_line_variants() {
    assert_eq!(typing_line(&[]), "");
    assert_eq!(typing_line(&["alice".into()]), "alice is typing…");
    assert_eq!(
        typing_line(&["alice".into(), "bob".into()]),
        "alice and bob are typing…"
    );
    assert_eq!(
        typing_line(&["a".into(), "b".into(), "c".into()]),
        "3 people are typing…"
    );
}

#[test]
fn same_message_group_requires_nearby_same_sender() {
    let day = Some("2026-07-06");
    assert!(same_message_group_on(
        &msg("U1", "1783372400.000001"),
        &msg("U1", "1783372450.000001"),
        day,
        day
    ));
    assert!(!same_message_group_on(
        &msg("U1", "1783372400.000001"),
        &msg("U2", "1783372450.000001"),
        day,
        day
    ));
    assert!(!same_message_group_on(
        &msg("U1", "1783372400.000001"),
        &msg("U1", "1783372801.000001"),
        day,
        day
    ));
    assert!(!same_message_group_on(
        &Message { ts: Some("1783372400.000001".to_owned()), ..Default::default() },
        &Message { ts: Some("1783372450.000001".to_owned()), ..Default::default() },
        day,
        day
    ));
}

#[test]
fn message_group_breaks_at_day_boundary() {
    assert!(!same_message_group_on(
        &msg("U1", "1783372400.000001"),
        &msg("U1", "1783372450.000001"),
        Some("2026-07-06"),
        Some("2026-07-07")
    ));
    assert!(same_message_group_on(
        &msg("U1", "1783372400.000001"),
        &msg("U1", "1783372700.000001"),
        None,
        None
    ));
}

#[test]
fn bold_wraps_and_unwraps() {
    assert_eq!(wrap_selection("hi", FormatMark::Bold), ("*hi*".into(), 0));
    assert_eq!(wrap_selection("*hi*", FormatMark::Bold), ("hi".into(), 0));
    assert_eq!(wrap_selection("", FormatMark::Bold), ("**".into(), 1));
}

#[test]
fn italic_code_strike() {
    assert_eq!(wrap_selection("x", FormatMark::Italic), ("_x_".into(), 0));
    assert_eq!(wrap_selection("x", FormatMark::Code), ("`x`".into(), 0));
    assert_eq!(wrap_selection("x", FormatMark::Strike), ("~x~".into(), 0));
}

#[test]
fn code_block_and_quote() {
    assert_eq!(
        wrap_selection("fn main() {}", FormatMark::CodeBlock),
        ("```\nfn main() {}\n```".into(), 0)
    );
    assert_eq!(wrap_selection("a\nb", FormatMark::Quote), ("> a\n> b".into(), 0));
    assert_eq!(wrap_selection("> a\n> b", FormatMark::Quote), ("a\nb".into(), 0));
}

#[test]
fn wrapping_twice_gives_the_selection_back() {
    let (once, _) = wrap_selection("word", FormatMark::Italic);
    assert_eq!(wrap_selection(&once, FormatMark::Italic), ("word".into(), 0));
    assert_eq!(wrap_selection("", FormatMark::CodeBlock), ("```\n\n```".into(), 4));
    assert_eq!(wrap_selection("", FormatMark::Quote), ("> ".into(), 0));
    let (quoted, _) = wrap_selection("x\n> y", FormatMark::Quote);
    assert_eq!(quoted, "> x\n> > y");
    assert_eq!(wrap_selection(&quoted, FormatMark::Quote), ("x\n> y".into(), 0));
}

#[test]
fn command_shortcuts_reach_the_editor() {
    assert_eq!(clipboard_binding(cmd(), Some('a')), Some(EditorBinding::SelectAll));
    assert_eq!(clipboard_binding(cmd(), Some('c')), Some(EditorBinding::Copy));
    assert_eq!(clipboard_binding(cmd(), Some('x')), Some(EditorBinding::Cut));
    assert_eq!(clipboard_binding(cmd(), Some('z')), Some(EditorBinding::Undo));
    assert_eq!(
        clipboard_binding(mods(true, false, true, false), Some('z')),
        Some(EditorBinding::Redo)
    );
}

#[test]
fn formatting_marks_win_over_clipboard() {
    let cmd_shift = mods(true, false, true, false);
    assert!(clipboard_binding(cmd_shift, Some('x')).is_none());
    assert!(clipboard_binding(cmd_shift, Some('c')).is_none());
    assert_eq!(format_mark_for(cmd_shift, Some('x')), Some(FormatMark::Strike));
    assert_eq!(format_mark_for(cmd_shift, Some('c')), Some(FormatMark::Code));
}

#[test]
fn plain_typing_is_left_alone() {
    assert!(clipboard_binding(none(), Some('a')).is_none());
}

#[test]
fn motion_deletes() {
    let alt = mods(false, false, false, true);
    assert_eq!(
        delete_motion_for(alt, &KeyKind::Backspace, None, false),
        Some(Motion::WordLeft)
    );
    assert_eq!(
        delete_motion_for(cmd(), &KeyKind::Backspace, None, false),
        Some(Motion::Home)
    );
    assert_eq!(
        delete_motion_for(alt, &KeyKind::Delete, None, false),
        Some(Motion::WordRight)
    );
    assert_eq!(delete_motion_for(none(), &KeyKind::Backspace, None, false), None);
}

#[test]
fn macos_emacs_motions() {
    let ctrl = mods(false, true, false, false);
    assert_eq!(emacs_binding(ctrl, Some('a')), Some(EditorBinding::Move(Motion::Home)));
    assert_eq!(emacs_binding(ctrl, Some('e')), Some(EditorBinding::Move(Motion::End)));
    assert_eq!(
        emacs_binding(mods(false, true, true, false), Some('f')),
        Some(EditorBinding::Select(Motion::Right))
    );
    assert_eq!(emacs_binding(ctrl, Some('d')), Some(EditorBinding::Delete));
    assert!(emacs_binding(cmd(), Some('a')).is_none());
    assert_eq!(
        delete_motion_for(ctrl, &KeyKind::Character("k".into()), Some('k'), true),
        Some(Motion::End)
    );
    assert_eq!(
        delete_motion_for(ctrl, &KeyKind::Character("k".into()), Some('k'), false),
        None
    );
}

#[test]
fn animated_frame_selection_honors_each_delay_and_loops() {
    let delays = [
        Duration::from_millis(20).as_nanos(),
        Duration::from_millis(50).as_nanos(),
    ];
    let total = Duration::from_millis(70).as_nanos();

    assert_eq!(animated_frame_index(2, &delays, total, Duration::ZERO.as_nanos()), Some(0));
    assert_eq!(
        animated_frame_index(2, &delays, total, Duration::from_millis(19).as_nanos()),
        Some(0)
    );
    assert_eq!(
        animated_frame_index(2, &delays, total, Duration::from_millis(20).as_nanos()),
        Some(1)
    );
    assert_eq!(
        animated_frame_index(2, &delays, total, Duration::from_millis(70).as_nanos()),
        Some(0)
    );
}

#[test]
fn animated_frame_needs_frames_and_a_duration() {
    let delays = [Duration::from_millis(20).as_nanos()];
    assert_eq!(animated_frame_index(0, &delays, 20_000_000, 5), None);
    assert_eq!(animated_frame_index(1, &delays, 0, 5), None);
}

#[test]
fn channel_labels_use_symbols_not_lock_text() {
    let public = channel("C_PUBLIC", "public-room");
    let mut private = channel("G_PRIVATE", "private-room");
    private.is_private = true;
    let ws = workspace(vec![public, private]);

    assert_eq!(channel_display_name(&ws, find(&ws, "C_PUBLIC")), "public-room");
    assert_eq!(channel_display_name(&ws, find(&ws, "G_PRIVATE")), "private-room");
}

#[test]
fn dm_labels_do_not_use_private_channel_formatting() {
    let mut mpdm = dm("G_MPDM", "mpdm-aarav54897--echo--alanlichen1-1");
    mpdm.is_im = false;
    mpdm.is_mpim = true;
    mpdm.is_group = true;
    mpdm.is_private = true;
    let ws = workspace(vec![mpdm]);

    let label = channel_display_name(&ws, find(&ws, "G_MPDM"));

    assert_eq!(label.trim(), "aarav54897, echo, alanlichen1");
    assert!(!label.contains("lock"));
    assert!(!label.contains("🔒"));
    assert!(!label.contains("mpdm-"));
}

#[test]
fn group_member_count_parses_mpdm_name() {
    let mut mpdm = dm("G_MPDM", "mpdm-aarav54897--echo--alanlichen1-1");
    mpdm.is_im = false;
    mpdm.is_mpim = true;
    assert_eq!(group_member_count(&mpdm), Some(3));

    let public = channel("C_PUBLIC", "general");
    assert_eq!(group_member_count(&public), None);
}

#[test]
fn line_has_custom_emoji_only_for_workspace_emoji() {
    let mut ws = workspace(Vec::new());
    ws.apply_emojis(vec![snack::models::Emoji {
        name: "party-hack".into(),
        value: "https://emoji.test/party.png".into(),
        ..Default::default()
    }]);
    assert!(snack::message_view::line_has_custom_emoji(&ws, "ship it :party-hack:"));
    assert!(!snack::message_view::line_has_custom_emoji(&ws, "ship it :wave:"));
    assert!(!snack::message_view::line_has_custom_emoji(&ws, "party-hack"));
}

fn str_value(s: &str) -> snack::models::JsonValue {
    snack::models::JsonValue {
        text: format!("\"{s}\""),
        scalar: snack::models::JsonScalar::Str(s.to_owned()),
        items: Vec::new(),
        members: Vec::new(),
    }
}

#[test]
fn profile_fields_show_users_dates_and_plain_text() {
    let mut ws = workspace(Vec::new());
    ws.users.push((
        "U_BOSS".into(),
        snack::models::User {
            id: "U_BOSS".into(),
            real_name: Some("Pat Boss".into()),
            ..Default::default()
        },
    ));
    assert_eq!(
        profile_field_text(&ws, Some("user"), &str_value("U_BOSS"), None),
        Some("Pat Boss".into())
    );
    assert_eq!(
        profile_field_text(&ws, Some("date"), &str_value("1700000000"), None),
        Some("2023-11-14".into())
    );
    assert_eq!(
        profile_field_text(&ws, Some("text"), &str_value("  "), Some(" alt ")),
        Some("alt".into())
    );
    assert_eq!(profile_field_text(&ws, None, &str_value(" "), None), None);
    assert_eq!(
        profile_field_text(&ws, None, &snack::models::JsonValue::default(), Some("x")),
        Some("x".into())
    );
}

#[test]
fn presence_and_status_lines() {
    let mut ws = workspace(Vec::new());
    ws.set_presence("U1".into(), Presence::Active);
    ws.set_presence("U2".into(), Presence::Away);
    assert_eq!(presence_label(&ws, "U1"), "Active");
    assert_eq!(presence_label(&ws, "U2"), "Away");
    assert_eq!(presence_label(&ws, "U3"), "Offline");

    let profile = snack::models::UserProfile {
        status_text: Some(" In a meeting ".into()),
        status_emoji: Some(":spiral_calendar_pad:".into()),
        ..Default::default()
    };
    assert_eq!(
        status_parts(Some(&profile)),
        Some((Some("spiral_calendar_pad".into()), Some("In a meeting".into())))
    );
    let blank = snack::models::UserProfile {
        status_text: Some("   ".into()),
        ..Default::default()
    };
    assert_eq!(status_parts(Some(&blank)), None);
    assert_eq!(status_parts(None), None);
}

fn plain_segment(text: &str) -> SegmentText {
    SegmentText { text: text.into(), channel: None, user: None, highlighted: false }
}

fn mention_segment(text: &str, channel: Option<&str>) -> SegmentText {
    SegmentText {
        text: text.into(),
        channel: channel.map(str::to_owned),
        user: None,
        highlighted: true,
    }
}

#[test]
fn channel_mention_is_one_highlight_run_not_per_grapheme() {
    let segments = vec![
        plain_segment("see "),
        mention_segment("#what-is-my-slack-id", Some("C1")),
        plain_segment(" please"),
    ];
    let exploded = explode_segments(&segments);
    let (spans, channels, runs) = (&exploded.spans, &exploded.channels, &exploded.runs);

    assert_eq!(spans.len(), "see #what-is-my-slack-id please".chars().count());
    assert_eq!(runs.len(), 1);
    assert_eq!(runs[0].start, 4);
    assert_eq!(runs[0].end, 4 + "#what-is-my-slack-id".chars().count() - 1);
    assert_eq!(runs[0].segment, 1);

    for index in runs[0].start..=runs[0].end {
        assert_eq!(channels[index].as_deref(), Some("C1"));
        assert_eq!(exploded.segment_of[index], 1);
    }
    assert!(channels[0].is_none());
    assert!(channels[spans.len() - 1].is_none());
}

#[test]
fn adjacent_mentions_stay_separate_chips() {
    let segments = vec![
        mention_segment("#a", Some("C1")),
        plain_segment(" "),
        mention_segment("#b", Some("C2")),
    ];
    let exploded = explode_segments(&segments);
    let (channels, runs) = (&exploded.channels, &exploded.runs);
    assert_eq!(runs.len(), 2);
    assert_eq!(channels[runs[0].start].as_deref(), Some("C1"));
    assert_eq!(channels[runs[1].start].as_deref(), Some("C2"));
}

#[test]
fn grapheme_clusters_are_single_spans() {
    let segments = vec![plain_segment("e\u{301}👍🏽"), mention_segment("", Some("C9"))];
    let exploded = explode_segments(&segments);
    assert_eq!(exploded.spans, ["e\u{301}", "👍🏽"]);
    assert!(exploded.runs.is_empty());
}

use std::cmp::Ordering;

use snack::composer::{ComposerTarget, FormatMark};
use snack::emoji::{emoji_glyph, emoji_names_in_text, emoji_preview_key, is_standard_emoji};
use snack::files::sanitize_file_name;
use snack::keys::{EditorBinding, KeyAction, KeyInput, KeyKind, Mods, Motion, is_enter, key_action};
use snack::labels::{channel_name, dm_user_id, message_icon_url, user_profile_image_url};
use snack::message_view::{
    TextSelection, TextSelectionEnd, TextSelectionSurface, is_app_message, reply_count_label,
    selection_range_for_message, text_runs, thread_participants, thread_target_ts,
};
use snack::models::{
    Channel, ChannelIdsPage, ChannelSection, CountsPage, Message, MessageIcons, Reaction,
    SidebarDmsPage, User, UserProfile,
};
use snack::mpdm::mpdm_name_label;
use snack::reactions::{apply_message_reaction, reaction_has_user};
use snack::sections::linked_list_order;
use snack::state::{
    Presence, RealtimeStatus, Workspace, WorkspaceSession, comma_words, dm_label,
};
use snack::timeline::ChannelMessages;
use snack::ts_order::{cmp_ts, ts_is_before};
use snack::urls::is_gif_url;

fn workspace() -> Workspace {
    Workspace::from_session(&WorkspaceSession {
        team_id: "T".into(),
        enterprise_id: None,
        user_id: "U_SELF".into(),
        name: "Test".into(),
        url: "https://test.slack.com".into(),
        token: "xoxc-test".into(),
    })
}

fn msg(ts: &str) -> Message {
    Message { ts: Some(ts.into()), ..Default::default() }
}

fn press(key: KeyKind, latin: Option<char>) -> KeyInput {
    KeyInput { key, modified_enter: false, latin }
}

fn mods(command: bool, control: bool, shift: bool, alt: bool) -> Mods {
    Mods { command, control, shift, alt }
}

#[test]
fn emoji_helpers() {
    assert_eq!(emoji_glyph("wave"), "👋");
    assert_eq!(emoji_glyph("thumbsup::skin-tone-3"), "👍");
    assert_eq!(emoji_glyph("party-hack"), ":party-hack:");
    assert!(is_standard_emoji("tada"));
    assert!(!is_standard_emoji("party-hack"));
    assert_eq!(emoji_preview_key("T1", "party"), "T1:party");
    assert_eq!(emoji_names_in_text("a :wave: b :no pe: :tada:"), ["wave", "tada"]);
}

#[test]
fn file_names_are_made_safe() {
    assert_eq!(sanitize_file_name("a/b\\c:d*e?f\"g<h>i|j"), "a_b_c_d_e_f_g_h_i_j");
    assert_eq!(sanitize_file_name(" ..report.pdf.. "), "report.pdf");
    assert_eq!(sanitize_file_name("..."), "download");
    assert_eq!(sanitize_file_name("tab\there"), "tab_here");
}

#[test]
fn key_presses_become_actions() {
    let cmd = mods(true, false, false, false);
    let none = mods(false, false, false, false);
    assert_eq!(
        key_action(true, cmd, &press(KeyKind::Character("b".into()), Some('b')), ComposerTarget::Channel, false),
        Some(KeyAction::Format(FormatMark::Bold))
    );
    assert_eq!(
        key_action(true, cmd, &press(KeyKind::Character("v".into()), Some('v')), ComposerTarget::Thread, false),
        Some(KeyAction::PasteAttachments(ComposerTarget::Thread))
    );
    assert_eq!(
        key_action(true, cmd, &press(KeyKind::Character("v".into()), Some('v')), ComposerTarget::Edit, false),
        Some(KeyAction::Paste)
    );
    assert_eq!(
        key_action(true, cmd, &press(KeyKind::Character("K".into()), Some('k')), ComposerTarget::Channel, false),
        Some(KeyAction::TogglePalette)
    );
    assert_eq!(
        key_action(true, none, &press(KeyKind::Enter, None), ComposerTarget::Channel, false),
        Some(KeyAction::Send)
    );
    assert_eq!(
        key_action(true, mods(false, false, true, false), &press(KeyKind::Enter, None), ComposerTarget::Channel, false),
        Some(KeyAction::Newline)
    );
    assert_eq!(
        key_action(true, mods(false, false, false, true), &press(KeyKind::Backspace, None), ComposerTarget::Channel, false),
        Some(KeyAction::DeleteTo(Motion::WordLeft))
    );
    assert_eq!(
        key_action(true, cmd, &press(KeyKind::Character("a".into()), Some('a')), ComposerTarget::Channel, false),
        Some(KeyAction::Editor(EditorBinding::SelectAll))
    );
    assert_eq!(
        key_action(true, mods(false, true, false, false), &press(KeyKind::Character("e".into()), Some('e')), ComposerTarget::Channel, true),
        Some(KeyAction::Editor(EditorBinding::Move(Motion::End)))
    );
    assert_eq!(
        key_action(true, cmd, &press(KeyKind::Character("q".into()), Some('q')), ComposerTarget::Channel, false),
        None
    );
    assert_eq!(
        key_action(true, none, &press(KeyKind::Character("q".into()), Some('q')), ComposerTarget::Channel, false),
        Some(KeyAction::Default)
    );
    assert_eq!(
        key_action(false, cmd, &press(KeyKind::Character("b".into()), Some('b')), ComposerTarget::Channel, false),
        None
    );
    assert!(is_enter(&KeyKind::Enter, false));
    assert!(is_enter(&KeyKind::Other, true));
    assert!(!is_enter(&KeyKind::Other, false));
}

#[test]
fn labels_of_users_channels_and_bots() {
    let user = User {
        id: "U1".into(),
        profile: Some(UserProfile {
            image_48: Some("48.png".into()),
            image_192: Some("192.png".into()),
            ..Default::default()
        }),
        ..Default::default()
    };
    assert_eq!(user_profile_image_url(&user), Some("192.png"));
    assert_eq!(user_profile_image_url(&User::default()), None);
    let icons = MessageIcons { image_48: Some("i48.png".into()), ..Default::default() };
    assert!(message_icon_url(&icons).is_some());
    assert_eq!(message_icon_url(&MessageIcons::default()), None);
    let dm = Channel { id: "D1".into(), is_im: true, user: Some("U2".into()), ..Default::default() };
    assert_eq!(dm_user_id(&dm), Some("U2"));
    let general = Channel { id: "C1".into(), name: Some("general".into()), ..Default::default() };
    assert_eq!(channel_name(&general), "general");
    assert_eq!(dm_user_id(&general), None);
}

#[test]
fn message_row_readings() {
    let mut m = msg("2.0");
    m.subtype = Some("bot_message".into());
    assert!(is_app_message(&m));
    assert!(!is_app_message(&msg("2.0")));
    let mut reply = msg("3.0");
    reply.thread_ts = Some("1.0".into());
    assert_eq!(thread_target_ts(&reply), Some("1.0".into()));
    assert_eq!(thread_target_ts(&msg("2.0")), Some("2.0".into()));
    assert_eq!(thread_target_ts(&Message::default()), None);
    let mut root = msg("1.0");
    root.reply_users = ["A", "B", "A", "C", "D", "E", "F"].iter().map(|s| s.to_string()).collect();
    assert_eq!(thread_participants(&root), ["A", "B", "C", "D", "E"]);
    assert_eq!(reply_count_label(1), "1 reply");
    assert_eq!(reply_count_label(3), "3 replies");
    assert_eq!(text_runs("a b  c"), ["a ", "b ", " ", "c"]);
    assert!(text_runs("").is_empty());
}

fn end(index: usize, offset: usize) -> TextSelectionEnd {
    TextSelectionEnd {
        surface: TextSelectionSurface::Channel { channel: "C1".into() },
        message_ts: format!("{index}.0"),
        message_index: index,
        offset,
    }
}

#[test]
fn selections_cover_messages() {
    let surface = TextSelectionSurface::Channel { channel: "C1".into() };
    let within = TextSelection { anchor: end(2, 7), focus: end(2, 3) };
    assert_eq!(selection_range_for_message(Some(&within), &surface, "2.0", 2, 10), Some((3, 7)));
    let across = TextSelection { anchor: end(1, 4), focus: end(3, 2) };
    assert_eq!(selection_range_for_message(Some(&across), &surface, "1.0", 1, 10), Some((4, 9)));
    assert_eq!(selection_range_for_message(Some(&across), &surface, "2.0", 2, 5), Some((0, 4)));
    assert_eq!(selection_range_for_message(Some(&across), &surface, "3.0", 3, 10), Some((0, 2)));
    assert_eq!(selection_range_for_message(Some(&across), &surface, "4.0", 4, 10), None);
    let backwards = TextSelection { anchor: end(3, 2), focus: end(1, 4) };
    assert_eq!(selection_range_for_message(Some(&backwards), &surface, "1.0", 1, 10), Some((4, 9)));
    let thread = TextSelectionSurface::Thread { channel: "C1".into(), root_ts: "1.0".into() };
    assert_eq!(selection_range_for_message(Some(&within), &thread, "2.0", 2, 10), None);
    assert_eq!(selection_range_for_message(None, &surface, "2.0", 2, 10), None);
    assert_eq!(selection_range_for_message(Some(&within), &surface, "2.0", 2, 0), None);
}

#[test]
fn group_dm_names() {
    assert_eq!(
        mpdm_name_label("mpdm-aarav54897--echo--alanlichen1-1"),
        Some("aarav54897, echo, alanlichen1".into())
    );
    assert_eq!(mpdm_name_label("mpdm-first.last--bob-2"), Some("first last, bob".into()));
    assert_eq!(mpdm_name_label("general"), None);
    assert_eq!(mpdm_name_label("mpdm-"), None);
}

#[test]
fn reactions_follow_realtime_events() {
    let mut m = msg("1.0");
    assert!(apply_message_reaction(&mut m, "U1", "tada", true));
    assert!(!apply_message_reaction(&mut m, "U1", "tada", true));
    assert!(apply_message_reaction(&mut m, "U2", "tada", true));
    assert_eq!(m.reactions[0].count, 2);
    assert!(reaction_has_user(&m.reactions[0], "U2"));
    assert!(apply_message_reaction(&mut m, "U1", "tada", false));
    assert_eq!(m.reactions[0].count, 1);
    assert!(apply_message_reaction(&mut m, "U2", "tada", false));
    assert!(m.reactions.is_empty());
    assert!(!apply_message_reaction(&mut m, "U2", "tada", false));
    assert!(!apply_message_reaction(&mut m, "U2", "", true));
    let r = Reaction { name: "x".into(), users: vec!["U9".into()], count: 1, ..Default::default() };
    assert!(!reaction_has_user(&r, "U1"));
}

fn section(id: &str, next: Option<&str>) -> ChannelSection {
    ChannelSection {
        channel_section_id: id.into(),
        name: id.into(),
        kind: "standard".into(),
        next_channel_section_id: next.map(str::to_owned),
        channel_ids_page: ChannelIdsPage::default(),
        ..Default::default()
    }
}

#[test]
fn section_linked_list_orders_from_the_head() {
    let sections = vec![section("B", Some("C")), section("A", Some("B")), section("C", None)];
    assert_eq!(linked_list_order(&sections), [1, 0, 2]);
    let cycle = vec![section("A", Some("B")), section("B", Some("A"))];
    let order = linked_list_order(&cycle);
    assert_eq!(order.len(), 2);
    assert!(order.contains(&0) && order.contains(&1));
    assert!(linked_list_order(&Vec::new()).is_empty());
}

#[test]
fn workspace_bookkeeping() {
    let mut ws = workspace();
    for i in 0..25 {
        ws.touch_recent(&format!("C{i}"));
    }
    ws.touch_recent(&"C3".to_string());
    assert_eq!(ws.recent_channels.len(), 20);
    assert_eq!(ws.recent_channels[0], "C3");
    assert_eq!(ws.recent_channels[1], "C24");
    assert_eq!(ws.recent_channels.iter().filter(|c| *c == "C3").count(), 1);

    ws.set_typing("C1", "U1".into(), 10);
    ws.set_typing("C1", "U2".into(), 11);
    ws.clear_typing_user("C1", "U1");
    assert_eq!(ws.typing_names("C1").len(), 1);
    ws.clear_typing_user("C1", "U2");
    assert!(ws.typing.is_empty());

    let dm = Channel { id: "D1".into(), is_im: true, user: Some("U1".into()), ..Default::default() };
    ws.set_presence("U1".into(), Presence::from_slack("active"));
    assert_eq!(ws.presence_for_channel(&dm), Presence::Active);
    let open = Channel { id: "C9".into(), is_channel: true, ..Default::default() };
    assert_eq!(ws.presence_for_channel(&open), Presence::Unknown);
    assert_eq!(Presence::from_slack("away"), Presence::Away);
    assert_eq!(Presence::from_slack("busy"), Presence::Unknown);

    assert!(!ws.rt.is_connected());
    ws.rt = RealtimeStatus::Connected(7);
    assert!(ws.rt.is_connected());
}

#[test]
fn comma_lists_keep_distinct_words() {
    assert_eq!(comma_words("U1,,U2,U1,"), ["U1", "U2"]);
    assert!(comma_words("").is_empty());
}

#[test]
fn counts_and_channel_descriptions_apply() {
    let mut ws = workspace();
    ws.channels.push(("C1".into(), Channel { id: "C1".into(), name: Some("general".into()), ..Default::default() }));
    ws.apply_counts(CountsPage {
        channels: vec![Channel { id: "C1".into(), unread_count: Some(3), mention_count: Some(1), ..Default::default() }],
        activity_v2: Some(vec![("a".into(), 2), ("b".into(), 5)]),
        ..Default::default()
    });
    assert_eq!(ws.activity_unread_count, Some(7));
    let c1 = ws.channels[0].1.clone();
    assert_eq!(c1.unread_count, Some(3));
    assert_eq!(ws.unread_total(&c1), 3);

    ws.apply_sidebar_dms(SidebarDmsPage {
        ims: vec![Channel { id: "D1".into(), is_im: true, user: Some("U_SELF".into()), ..Default::default() }],
        ..Default::default()
    });
    assert_eq!(ws.dm_order, ["D1"]);

    ws.apply_channels_info(vec![Channel { id: "C1".into(), is_starred: true, updated: Some(50), ..Default::default() }]);
    let c1 = ws.channels.iter().find(|(k, _)| k == "C1").unwrap().1.clone();
    assert!(ws.is_starred_channel(&c1));
    assert_eq!(ws.channel_recency(&c1), 50);
    assert_eq!(c1.name.as_deref(), Some("general"));

    let dm = ws.channels.iter().find(|(k, _)| k == "D1").unwrap().1.clone();
    assert_eq!(dm_label(&ws, &dm), "U_SELF");
}

#[test]
fn repeated_updates_keep_one_entry_per_key() {
    let mut ws = workspace();
    let general = Channel { id: "C1".into(), name: Some("general".into()), ..Default::default() };
    let dm = Channel { id: "D1".into(), is_im: true, user: Some("U1".into()), ..Default::default() };
    for _ in 0..2 {
        ws.apply_sidebar_dms(SidebarDmsPage { ims: vec![dm.clone(), dm.clone()], ..Default::default() });
        ws.apply_counts(CountsPage {
            channels: vec![general.clone(), Channel { unread_count: Some(2), ..general.clone() }],
            ims: vec![dm.clone()],
            ..Default::default()
        });
        ws.apply_channels_info(vec![general.clone(), general.clone()]);
        ws.touch_recent(&"C1".to_string());
        ws.touch_recent(&"D1".to_string());
        ws.set_presence("U1".into(), Presence::from_slack("active"));
        ws.set_typing("C1", "U1".into(), 5);
    }
    let mut keys: Vec<&str> = ws.channels.iter().map(|(k, _)| k.as_str()).collect();
    keys.sort();
    assert_eq!(keys, ["C1", "D1"]);
    assert!(ws.channels.iter().all(|(k, c)| *k == c.id));
    assert_eq!(ws.messages.len(), 2);
    assert_eq!(ws.dm_order, ["D1"]);
    assert_eq!(ws.recent_channels, ["D1", "C1"]);
    assert_eq!(ws.presence.len(), 1);
    assert_eq!(ws.typing.len(), 1);
    assert_eq!(ws.typing[0].1.len(), 1);
}

#[test]
fn timelines_merge_edits() {
    let mut cm = ChannelMessages::new();
    assert!(cm.merge_update(Message { text: Some("one".into()), ..msg("1.0") }));
    assert!(cm.merge_update(Message { text: Some("two".into()), ..msg("2.0") }));
    assert!(!cm.merge_update(Message { text: Some("one, edited".into()), ..msg("1.0") }));
    assert_eq!(cm.index_of("1.0"), Some(0));
    assert_eq!(cm.index_of("9.0"), None);
    assert_eq!(cm.messages[0].text.as_deref(), Some("one, edited"));
    assert_eq!(cm.latest_ts(), Some("2.0".into()));
    assert_eq!(cm.oldest_ts(), Some("1.0".into()));
}

#[test]
fn timestamps_compare_numerically() {
    assert_eq!(cmp_ts(Some("9.5"), Some("10.0")), Ordering::Less);
    assert_eq!(cmp_ts(Some("10.000010"), Some("10.000009")), Ordering::Greater);
    assert_eq!(cmp_ts(None, Some("1.0")), Ordering::Less);
    assert_eq!(cmp_ts(None, None), Ordering::Equal);
    assert!(ts_is_before(Some("1.0"), Some("1.5")));
    assert!(!ts_is_before(Some("1.5"), Some("1.5")));
}

#[test]
fn gif_urls_by_path() {
    assert!(is_gif_url("https://x.test/a/b.GIF?size=2#top"));
    assert!(!is_gif_url("https://x.test/a.gif.png"));
    assert!(!is_gif_url("https://x.test/?q=a.gif"));
}

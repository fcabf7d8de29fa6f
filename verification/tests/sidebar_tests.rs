use snack::models::{
    Channel, ChannelIdsPage, ChannelSection, ChannelSectionsPage, JsonScalar, JsonValue,
};
use snack::panels::{UnreadsSort, ordered_channels};
use snack::sidebar::{
    Order, SidebarGroup, SortKey, ZERO_PRIORITY_RANK, compare_keys, grouped, natural_order,
};
use snack::state::{Workspace, WorkspaceSession};
use snack::timeline::ChannelMessages;

fn channel(id: &str, name: &str) -> Channel {
    Channel {
        id: id.into(),
        name: Some(name.into()),
        is_channel: true,
        ..Default::default()
    }
}

fn dm(id: &str, name: &str) -> Channel {
    Channel {
        id: id.into(),
        name: Some(name.into()),
        is_im: true,
        ..Default::default()
    }
}

fn json_str(s: &str) -> JsonValue {
    JsonValue {
        text: format!("\"{s}\""),
        scalar: JsonScalar::Str(s.to_owned()),
        items: Vec::new(),
        members: Vec::new(),
    }
}

fn workspace(channels: Vec<Channel>, unreads: &[(&str, u32)]) -> Workspace {
    let mut ws = Workspace::from_session(&WorkspaceSession {
        team_id: "T".into(),
        enterprise_id: None,
        user_id: "U_SELF".into(),
        name: "Test".into(),
        url: "https://test.slack.com".into(),
        token: "xoxc-test".into(),
    });
    for c in channels {
        ws.channels.push((c.id.clone(), c));
    }
    for (id, count) in unreads {
        let mut cm = ChannelMessages::new();
        cm.unread_count = *count;
        ws.messages.push(((*id).to_owned(), cm));
    }
    ws
}

fn ids(ws: &Workspace, positions: &[usize]) -> Vec<String> {
    positions.iter().map(|&k| ws.channels[k].1.id.clone()).collect()
}

fn section_ids(ws: &Workspace, groups: &[SidebarGroup], title: &str) -> Vec<String> {
    groups
        .iter()
        .find(|group| group.title == title)
        .map(|group| ids(ws, &group.channels))
        .unwrap_or_default()
}

fn section_titles(groups: &[SidebarGroup]) -> Vec<String> {
    groups
        .iter()
        .filter(|group| !group.channels.is_empty())
        .map(|group| group.title.clone())
        .collect()
}

fn chars(s: &str) -> Vec<char> {
    s.chars().collect()
}

#[test]
fn groups_sidebar_like_slack_unread_priority() {
    let mut vip = channel("C_VIP", "lilys-nest");
    vip.extra.push(("sidebar_section_name".into(), json_str("VIP unreads")));
    let mut starred = channel("C_STAR", "announcements");
    starred.is_starred = true;
    let quiet = channel("C_QUIET", "general");
    let unread = channel("C_UNREAD", "community");
    let active_read = channel("C_ACTIVE", "community-logs");
    let mut ws = workspace(
        vec![quiet, unread, starred, vip, active_read, dm("D_ALICE", "alice")],
        &[("C_VIP", 1), ("C_UNREAD", 2)],
    );
    ws.hide_read_channels_unless_starred = true;
    ws.priority_sidebar_section = true;

    let sections = grouped(&ws, Some("C_ACTIVE"));

    assert_eq!(section_ids(&ws, &sections, "VIP unreads"), ["C_VIP"]);
    assert!(section_ids(&ws, &sections, "Direct messages").is_empty());
    assert_eq!(section_ids(&ws, &sections, "Starred"), ["C_STAR"]);
    assert_eq!(section_ids(&ws, &sections, "Channels"), ["C_UNREAD", "C_ACTIVE"]);
}

#[test]
fn hidden_sections_stay_hidden() {
    let mut ws = workspace(vec![channel("C_G", "grouped")], &[("C_G", 1)]);
    ws.apply_channel_sections(ChannelSectionsPage {
        channel_sections: vec![ChannelSection {
            channel_section_id: "L_UG".into(),
            name: "helpers".into(),
            kind: "user_group".into(),
            channel_ids_page: ChannelIdsPage {
                channel_ids: vec!["C_G".into()],
                ..Default::default()
            },
            ..Default::default()
        }],
        ..Default::default()
    });
    ws.sidebar.hidden_sections.push("L_UG".into());

    let sections = grouped(&ws, None);

    assert!(!section_titles(&sections).contains(&"helpers".to_string()));
}

#[test]
fn external_channels_get_their_own_section_and_stay_visible_when_read() {
    let mut ext = channel("C_EXT", "vercel-embassy");
    ext.is_ext_shared = true;
    let read = channel("C_READ", "quiet");
    let mut ws = workspace(vec![ext, read], &[]);
    ws.hide_read_channels_unless_starred = true;

    let sections = grouped(&ws, None);

    assert_eq!(section_ids(&ws, &sections, "External connections"), ["C_EXT"]);
    assert!(section_ids(&ws, &sections, "Channels").is_empty());
}

#[test]
fn hides_read_dms_when_slack_prefers_unread_sidebar() {
    let mut ws = workspace(
        vec![dm("D_READ", "read"), dm("D_UNREAD", "unread")],
        &[("D_UNREAD", 1)],
    );
    ws.hide_read_channels_unless_starred = true;

    let sections = grouped(&ws, None);

    assert_eq!(section_ids(&ws, &sections, "Direct messages"), ["D_UNREAD"]);
}

#[test]
fn channels_sort_by_name_in_natural_order_with_mentions_first() {
    let mut ws = workspace(
        vec![
            channel("C_10", "team-10"),
            channel("C_2", "Team-2"),
            channel("C_ALPHA", "alpha"),
            channel("C_PING", "zulu"),
        ],
        &[],
    );
    let mut pinged = ChannelMessages::new();
    pinged.mention_count = 1;
    ws.messages.push(("C_PING".into(), pinged));

    let sections = grouped(&ws, None);

    assert_eq!(
        section_ids(&ws, &sections, "Channels"),
        ["C_PING", "C_ALPHA", "C_2", "C_10"]
    );
    assert_eq!(
        section_titles(&sections),
        ["Channels"]
    );
}

#[test]
fn priority_sections_sort_by_rank_then_name() {
    let mut ws = workspace(
        vec![channel("C_LOW", "aaa"), channel("C_HIGH", "zzz"), channel("C_NONE", "mmm")],
        &[],
    );
    ws.channels.iter_mut().for_each(|(_, c)| c.is_starred = true);
    ws.sidebar.section_prefs.push((
        "stars".into(),
        snack::state::SectionPref { sort: Some("priority".into()), ..Default::default() },
    ));
    ws.priority_ranks.push(("C_HIGH".into(), ZERO_PRIORITY_RANK + 50));
    ws.priority_ranks.push(("C_LOW".into(), ZERO_PRIORITY_RANK - 50));

    let sections = grouped(&ws, None);

    assert_eq!(
        section_ids(&ws, &sections, "Starred"),
        ["C_HIGH", "C_NONE", "C_LOW"]
    );
}

#[test]
fn natural_order_compares_numbers_by_value_and_letters_by_case_folding() {
    assert_eq!(natural_order(&chars("file2"), &chars("file10")), Order::Less);
    assert_eq!(natural_order(&chars("File10"), &chars("file2")), Order::Greater);
    assert_eq!(natural_order(&chars("ABC"), &chars("abc")), Order::Equal);
    assert_eq!(natural_order(&chars("a01"), &chars("a1")), Order::Equal);
    assert_eq!(natural_order(&chars("ab"), &chars("abc")), Order::Less);
    assert_eq!(natural_order(&chars(""), &chars("")), Order::Equal);
    assert_eq!(
        natural_order(&chars("99999999999999999999999"), &chars("99999999999999999999998")),
        Order::Equal
    );
}

#[test]
fn sort_keys_put_higher_ranks_first_and_break_ties_by_id() {
    let key = |rank: u64, name: &str, id: &str| SortKey { rank, name: chars(name), id: chars(id) };
    assert_eq!(compare_keys(&key(5, "b", "X"), &key(3, "a", "A")), Order::Less);
    assert_eq!(compare_keys(&key(3, "a", "B"), &key(3, "a", "A")), Order::Greater);
    assert_eq!(compare_keys(&key(3, "a", "A"), &key(3, "a", "A")), Order::Equal);
}

#[test]
fn unreads_list_orders_by_recency_in_either_direction() {
    let mut old = channel("C_OLD", "old");
    old.updated = Some(100);
    let mut new = channel("C_NEW", "new");
    new.updated = Some(300);
    let mut read = channel("C_READ", "read");
    read.updated = Some(500);
    let ws = workspace(vec![old, read, new], &[("C_OLD", 1), ("C_NEW", 4)]);

    let newest = ordered_channels(&ws, UnreadsSort::Newest);
    assert_eq!(ids(&ws, &newest), ["C_NEW", "C_OLD"]);
    let oldest = ordered_channels(&ws, UnreadsSort::Oldest);
    assert_eq!(ids(&ws, &oldest), ["C_OLD", "C_NEW"]);
}

use snack::request::{
    FormRequest, HistoryArgs, SearchArgs, activity_feed, chat_post_message, conversations_history,
    conversations_mark, messages_list, reactions_add, search_messages, user_boot,
};

fn fields(r: &FormRequest) -> Vec<(&str, &str)> {
    r.fields.iter().map(|(k, v)| (k.as_str(), v.as_str())).collect()
}

#[test]
fn messages_list_encodes_ids_as_json() {
    let r = messages_list(&vec![
        ("C1".into(), vec!["1.000100".into(), "2.000200".into()]),
        ("D2".into(), Vec::new()),
    ]);
    assert_eq!(r.method, "messages.list");
    assert_eq!(
        fields(&r),
        [
            (
                "message_ids",
                r#"[{"channel":"C1","timestamps":["1.000100","2.000200"]},{"channel":"D2","timestamps":[]}]"#
            ),
            ("org_wide_aware", "true"),
            ("cached_latest_updates", "{}"),
        ]
    );
}

#[test]
fn messages_list_escapes_json_strings() {
    let r = messages_list(&vec![("C\"1\\\n".into(), vec!["\u{1}".into()])]);
    assert_eq!(
        fields(&r)[0].1,
        r#"[{"channel":"C\"1\\\n","timestamps":["\u0001"]}]"#
    );
    let empty = messages_list(&Vec::new());
    assert_eq!(fields(&empty)[0].1, "[]");
}

#[test]
fn simple_requests_carry_their_fields_in_order() {
    assert_eq!(user_boot().method, "client.userBoot");
    assert_eq!(fields(&user_boot()), [("include_min_version_bump_check", "1")]);
    let mark = conversations_mark("C1".into(), "5.5".into());
    assert_eq!(mark.method, "conversations.mark");
    assert_eq!(fields(&mark), [("channel", "C1"), ("ts", "5.5")]);
    let react = reactions_add("C1".into(), "5.5".into(), "tada".into());
    assert_eq!(react.method, "reactions.add");
    assert_eq!(fields(&react), [("channel", "C1"), ("timestamp", "5.5"), ("name", "tada")]);
}

#[test]
fn history_request_includes_only_given_paging_fields() {
    let r = conversations_history(HistoryArgs {
        channel: "C1".into(),
        limit: Some(50),
        ..Default::default()
    });
    assert_eq!(r.method, "conversations.history");
    let f = fields(&r);
    assert_eq!(f[0], ("channel", "C1"));
    assert!(f.contains(&("limit", "50")));
    assert!(!f.iter().any(|(k, _)| *k == "cursor" || *k == "latest" || *k == "oldest"));
}

#[test]
fn post_message_adds_thread_ts_only_for_replies() {
    let top = chat_post_message("C1".into(), "hi".into(), None);
    assert!(!fields(&top).iter().any(|(k, _)| *k == "thread_ts"));
    let reply = chat_post_message("C1".into(), "hi".into(), Some("9.9".into()));
    assert!(fields(&reply).contains(&("thread_ts", "9.9")));
}

#[test]
fn activity_feed_passes_cursor_and_unread_filter() {
    let r = activity_feed(20, Some("next".into()), true);
    let f = fields(&r);
    assert!(f.contains(&("limit", "20")));
    assert!(f.contains(&("cursor", "next")));
    assert!(f.contains(&("unread_only", "true")));
    let without = activity_feed(20, None, false);
    assert!(!fields(&without).iter().any(|(k, _)| *k == "cursor"));
}

#[test]
fn search_requests_get_fresh_ids() {
    let a = search_messages(SearchArgs::new("hello"));
    let b = search_messages(SearchArgs::new("hello"));
    assert_eq!(a.method, b.method);
    assert_ne!(fields(&a), fields(&b));
    assert!(fields(&a).contains(&("query", "hello")));
    for key in ["client_req_id", "search_session_id"] {
        let id = fields(&a).iter().find(|(k, _)| *k == key).unwrap().1.to_string();
        assert_eq!(id.len(), 36);
        for (i, c) in id.chars().enumerate() {
            if [8, 13, 18, 23].contains(&i) {
                assert_eq!(c, '-');
            } else {
                assert!(c.is_ascii_digit() || ('a'..='f').contains(&c));
            }
        }
        assert_eq!(id.chars().nth(14), Some('4'));
        assert!(matches!(id.chars().nth(19), Some('8' | '9' | 'a' | 'b')));
    }
}

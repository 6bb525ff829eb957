use ndgr_client::control_session::{dispatch, post_comment_text, Handshake, Inbound, Outbound, Reaction};
use ndgr_client::entry_stream::{entry_url, Entry, EntryEvent, EntryTraversal, Phase, TraversalStep, ViewQuery};
use ndgr_client::comment_buffer::CommentBuffer;

#[test]
fn entry_url_latest_and_at() {
    assert_eq!(entry_url("https://a.example/v", &ViewQuery::Now), "https://a.example/v?at=now");
    assert_eq!(entry_url("https://a.example/v", &ViewQuery::At(1700000000)), "https://a.example/v?at=1700000000");
    assert_eq!(entry_url("u", &ViewQuery::At(-5)), "u?at=-5");
}

#[test]
fn traversal_of_scripted_entries() {
    let segments = |uri: &str| -> Vec<&'static str> {
        match uri {
            "A" => vec!["m1", "m2"],
            "B" => vec!["m3"],
            _ => vec![],
        }
    };
    let mut engine = EntryTraversal::new("view".to_string());
    assert_eq!(engine.poll_url(), "view?at=now");
    let script = vec![
        Entry::Segment { uri: "A".to_string() },
        Entry::Next { at: 100 },
        Entry::Segment { uri: "B".to_string() },
    ];
    let mut out = Vec::new();
    for entry in script {
        match engine.on_entry(EntryEvent::Item(entry)) {
            TraversalStep::Drain(uri) => {
                assert_eq!(engine.phase, Phase::Draining);
                out.extend(segments(&uri));
                assert!(matches!(engine.on_segment_end(), TraversalStep::PullEntry));
            }
            TraversalStep::PullEntry => {}
            TraversalStep::Poll(_) => panic!("poll before the stream ended"),
        }
    }
    assert_eq!(out, vec!["m1", "m2", "m3"]);
    assert_eq!(engine.query, ViewQuery::At(100));
}

#[test]
fn ended_entry_stream_polls_again_with_same_cursor() {
    let mut engine = EntryTraversal::new("view".to_string());
    assert!(matches!(engine.on_entry(EntryEvent::Item(Entry::Next { at: 42 })), TraversalStep::PullEntry));
    match engine.on_entry(EntryEvent::End) {
        TraversalStep::Poll(url) => assert_eq!(url, "view?at=42"),
        _ => panic!("expected a new poll"),
    }
    assert_eq!(engine.query, ViewQuery::At(42));
    assert_eq!(engine.phase, Phase::Polling);
    match engine.on_entry(EntryEvent::End) {
        TraversalStep::Poll(url) => assert_eq!(url, "view?at=42"),
        _ => panic!("expected a new poll"),
    }
}

#[test]
fn other_entries_and_bad_frames_are_skipped() {
    let mut engine = EntryTraversal::new("v".to_string());
    assert!(matches!(engine.on_entry(EntryEvent::Item(Entry::Other)), TraversalStep::PullEntry));
    assert!(matches!(engine.on_entry(EntryEvent::Malformed), TraversalStep::PullEntry));
    assert_eq!(engine.query, ViewQuery::Now);
}

fn complete(first: Inbound, second: Inbound) {
    let mut h = Handshake::new();
    h.on_message(first);
    assert!(!h.is_complete());
    h.on_message(second);
    assert!(h.is_complete());
    let config = h.finish().unwrap();
    assert_eq!(config.view_uri(), "X");
    assert_eq!(config.keep_alive_secs(), 5);
}

#[test]
fn handshake_in_either_order() {
    complete(
        Inbound::MessageServer { view_uri: "X".to_string() },
        Inbound::Seat { keep_interval_sec: 5 },
    );
    complete(
        Inbound::Seat { keep_interval_sec: 5 },
        Inbound::MessageServer { view_uri: "X".to_string() },
    );
}

#[test]
fn handshake_ignores_other_messages() {
    let mut h = Handshake::new();
    h.on_message(Inbound::Ping);
    h.on_message(Inbound::ServerTime);
    h.on_message(Inbound::MessageServer { view_uri: "X".to_string() });
    assert!(!h.is_complete());
    assert!(h.finish().is_none());
}

#[test]
fn ping_is_answered_with_one_pong() {
    match dispatch(Inbound::Ping) {
        Reaction::Reply(m) => assert_eq!(m.text(), r#"{"type":"pong"}"#),
        _ => panic!("a ping must be answered"),
    }
    assert!(matches!(dispatch(Inbound::Statistics), Reaction::Ignore));
    assert!(matches!(dispatch(Inbound::Seat { keep_interval_sec: 3 }), Reaction::Ignore));
}

#[test]
fn reconnect_is_observed_not_acted_upon() {
    match dispatch(Inbound::Reconnect { audience_token: "tok".to_string(), wait_time_sec: 10 }) {
        Reaction::Reconnect { audience_token, wait_time_sec } => {
            assert_eq!(audience_token, "tok");
            assert_eq!(wait_time_sec, 10);
        }
        _ => panic!("the reconnect instruction must be handed on"),
    }
}

#[test]
fn outbound_texts() {
    assert_eq!(Outbound::StartWatching.text(), r#"{"type":"startWatching","data":{"reconnect":false}}"#);
    assert_eq!(Outbound::KeepSeat.text(), r#"{"type":"keepSeat"}"#);
    assert_eq!(
        Outbound::PostComment { text: "hi".to_string() }.text(),
        r#"{"type":"postComment","data":{"text":"hi"}}"#
    );
    assert_eq!(
        Outbound::PostComment { text: "say \"x\"".to_string() }.text(),
        r#"{"type":"postComment","data":{"text":"say \"x\""}}"#
    );
    assert_eq!(post_comment_text("\"q\""), r#"{"type":"postComment","data":{"text":"q"}}"#);
}

fn lines(b: &CommentBuffer) -> Vec<String> {
    b.comments().iter().cloned().collect()
}

#[test]
fn comment_wraps_to_width() {
    let mut b = CommentBuffer::new(4, 10);
    b.push("abcdefghij".to_string());
    assert_eq!(lines(&b), vec!["abcd", "efgh", "ij"]);
}

#[test]
fn wide_characters_count_twice() {
    let mut b = CommentBuffer::new(5, 10);
    b.push("あいうえ".to_string());
    assert_eq!(lines(&b), vec!["あい", "うえ"]);
}

#[test]
fn only_newest_lines_are_kept() {
    let mut b = CommentBuffer::new(3, 2);
    b.push("abc".to_string());
    b.push("defghi".to_string());
    assert_eq!(lines(&b), vec!["def", "ghi"]);
    b.push(String::new());
    assert_eq!(lines(&b), vec!["def", "ghi"]);
}

#[test]
fn too_wide_character_stands_after_an_empty_line() {
    let mut b = CommentBuffer::new(1, 10);
    b.push("あ".to_string());
    assert_eq!(lines(&b), vec!["", "あ"]);
}

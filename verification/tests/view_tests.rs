use p2p_chat::peers::{PeerMap, PeerSet};
use p2p_chat::sync::engine::SyncEngine;
use p2p_chat::sync::engine::events::{DhtQueryResult, SyncEvent};
use p2p_chat::types::{DeliveryStatus, Message};
use p2p_chat::ui::chat_view::{chat_view_items, ChatItemKind};
use p2p_chat::ui::completers::ChatCompleter;
use p2p_chat::ui::mode::{LogLevel, UIMode};
use p2p_chat::ui::state::UIState;
use p2p_chat::ui::view::{command_output_line, fit_to_width, level_text, scrolled_text, visible_range};

#[test]
fn window_shows_the_bottom_when_not_scrolled() {
    assert_eq!(visible_range(10, 4, 0), (6, 10));
    assert_eq!(visible_range(10, 4, 3), (3, 7));
    assert_eq!(visible_range(10, 4, 8), (0, 4));
    assert_eq!(visible_range(10, 4, 10), (0, 4));
    assert_eq!(visible_range(3, 4, 2), (0, 3));
    assert_eq!(visible_range(0, 4, 0), (0, 0));
}

#[test]
fn horizontal_scroll_drops_characters() {
    assert_eq!(scrolled_text("héllo", 1), "éllo");
    assert_eq!(scrolled_text("héllo", 0), "héllo");
    assert_eq!(scrolled_text("héllo", 5), "");
    assert_eq!(scrolled_text("héllo", 9), "");
}

#[test]
fn long_lines_are_cut_with_dots() {
    assert_eq!(fit_to_width("abcdefgh", 8), "abcdefgh");
    assert_eq!(fit_to_width("abcdefghi", 8), "abcde...");
    assert_eq!(fit_to_width("abcd", 3), "...");
}

#[test]
fn command_output_lines_lose_their_marks() {
    assert_eq!(command_output_line("__HISTORY_OUTPUT__text"), Some("text".to_string()));
    assert_eq!(command_output_line("__HISTORY_OUTPUT____HISTORY_OUTPUT__x"), Some("x".to_string()));
    assert_eq!(command_output_line("plain"), None);
}

#[test]
fn level_column_is_five_wide() {
    assert_eq!(level_text(LogLevel::Error), "ERROR");
    assert_eq!(level_text(LogLevel::Warn), "WARN ");
    assert_eq!(level_text(LogLevel::Info), "INFO ");
    assert_eq!(level_text(LogLevel::Debug), "DEBUG");
    assert_eq!(level_text(LogLevel::Trace), "TRACE");
}

#[test]
fn toggling_twice_keeps_the_log_settings() {
    let mut s = UIState::new();
    s.mode = UIMode::Logs { filter: Some("kad".to_string()), level: LogLevel::Info };
    s.toggle_mode();
    s.toggle_mode();
    match &s.mode {
        UIMode::Logs { filter, level } => {
            assert_eq!(filter.as_deref(), Some("kad"));
            assert_eq!(*level, LogLevel::Info);
        }
        UIMode::Chat => panic!("expected log mode"),
    }
    let mut t = UIState::new();
    t.toggle_mode();
    t.toggle_mode();
    assert!(matches!(t.mode, UIMode::Chat));
}

#[test]
fn command_suggestions_never_repeat() {
    let c = ChatCompleter::new(vec![]);
    for input in ["e", "h", "i", "c", "s", "f", "p", "x"] {
        let s = c.get_suggestions(input);
        let mut sorted = s.clone();
        sorted.sort();
        sorted.dedup();
        assert_eq!(sorted.len(), s.len(), "repeated suggestion for {}", input);
    }
}

#[test]
fn fuzzy_match_is_subsequence() {
    let c = ChatCompleter::new(vec![]);
    assert!(c.fuzzy_match("fnd", "friend"));
    assert!(c.fuzzy_match("frd", "friend"));
    assert!(!c.fuzzy_match("dfr", "friend"));
    assert!(!c.fuzzy_match("ff", "friend"));
}

fn found(keys: &[u8]) -> SyncEngine {
    let mut e = SyncEngine::new(0);
    let mut s = PeerSet::new();
    for k in keys {
        s.insert(vec![*k]);
    }
    e.record_query_started(1, b"q".to_vec(), 0);
    e.handle_event(
        &SyncEvent::DhtQueryResult { query_id: 1, result: DhtQueryResult::ProvidersFound { providers: s, finished: true } },
        0,
        1300,
    );
    e
}

#[test]
fn live_ranking_lists_every_available_mailbox() {
    let e = found(&[1, 2, 3]);
    let mut all = e.get_available_mailboxes(&PeerMap::new());
    all.sort();
    assert_eq!(all, vec![vec![1], vec![2], vec![3]]);
    let mut subset = PeerSet::new();
    subset.insert(vec![2]);
    subset.insert(vec![9]);
    let mut ranked = e.rank_mailboxes_subset(&subset, &PeerMap::new());
    ranked.sort();
    assert_eq!(ranked, vec![vec![2], vec![9]]);
}

#[test]
fn discovery_is_rate_limited() {
    let mut e = SyncEngine::new(0);
    assert!(e.discover_mailboxes(1_000, true));
    assert!(!e.discover_mailboxes(2_000, true));
    assert!(e.discover_mailboxes(40_000, true));
    assert!(!e.discover_mailboxes(80_000, false));
}

#[test]
fn chat_view_orders_messages_and_lines_by_time_stably() {
    let mut s = UIState::new();
    let msg = |id: u128, ts: i64| Message {
        id,
        sender: vec![1],
        recipient: vec![2],
        timestamp: ts,
        content: vec![],
        nonce: 0,
        delivery_status: DeliveryStatus::Sending,
    };
    s.add_message_at(msg(1, 0), 300);
    s.add_message_at(msg(2, 0), 100);
    s.add_chat_message_at("a\nb".to_string(), 200);
    s.add_chat_message_at("c".to_string(), 100);
    let items = chat_view_items(&s);
    let shown: Vec<(i64, String)> = items
        .iter()
        .map(|it| match &it.kind {
            ChatItemKind::Message(i) => (it.at, format!("m{}", s.messages[*i].message.id)),
            ChatItemKind::Line(t) => (it.at, t.clone()),
        })
        .collect();
    assert_eq!(
        shown,
        vec![
            (100, "m2".to_string()),
            (100, "c".to_string()),
            (200, "a".to_string()),
            (200, "b".to_string()),
            (300, "m1".to_string()),
        ]
    );
}

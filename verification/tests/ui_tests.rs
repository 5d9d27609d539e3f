use p2p_chat::ui::chat_mode::ChatMode;
use p2p_chat::ui::commands::{
    command_named, history_arguments, identity_text, parse_friend_command, parse_limit,
    plan_ui_action, resolve_peer_id, send_arguments, short_peer, ActionPlan, ChatCommand,
    FriendCommandError, ResolveError,
};
use p2p_chat::ui::completers::ChatCompleter;
use p2p_chat::ui::keys::{Key, KeyPress};
use p2p_chat::ui::log_mode::LogMode;
use p2p_chat::ui::send::{discover_before_forwarding, outgoing_message, removes_pending, Delivery};
use p2p_chat::ui::mode::{LogEntry, LogLevel, UIAction, UIMode};
use p2p_chat::ui::state::UIState;
use p2p_chat::types::{DeliveryStatus, Friend, Message};

fn key(code: Key) -> KeyPress {
    KeyPress { code, control: false }
}

fn ctrl(code: Key) -> KeyPress {
    KeyPress { code, control: true }
}

fn type_text(mode: &mut ChatMode, state: &mut UIState, text: &str) {
    for c in text.chars() {
        mode.handle_key(state, key(Key::Char(c)));
    }
}

fn strings(v: &[&str]) -> Vec<String> {
    v.iter().map(|s| s.to_string()).collect()
}

#[test]
fn blank_input_suggests_every_command() {
    let c = ChatCompleter::new(vec![]);
    let all = strings(&["send", "history", "friends", "friend", "peers", "info", "check", "help", "exit"]);
    assert_eq!(c.get_suggestions(""), all);
    assert_eq!(c.get_suggestions("   "), all);
}

#[test]
fn command_prefix_then_fuzzy_matches() {
    let c = ChatCompleter::new(vec![]);
    assert_eq!(c.get_suggestions("fr"), strings(&["friends", "friend"]));
    assert_eq!(c.get_suggestions("HE"), strings(&["help", "check"]));
    assert_eq!(c.get_suggestions("hy"), strings(&["history"]));
    assert_eq!(c.get_suggestions("sd"), strings(&["send"]));
    assert!(c.get_suggestions("zz").is_empty());
}

#[test]
fn friends_complete_after_send_and_history() {
    let c = ChatCompleter::new(strings(&["Alice", "bob", "carol"]));
    assert_eq!(c.get_suggestions("send a"), strings(&["send Alice", "send carol"]));
    assert_eq!(c.get_suggestions("history B"), strings(&["history bob"]));
    assert_eq!(c.get_suggestions("send cl"), strings(&["send carol"]));
    assert!(c.get_suggestions("peers a").is_empty());
    assert!(c.get_suggestions("send bob hi").is_empty());
}

#[test]
fn friend_command_suggests_peers_then_placeholders() {
    let mut c = ChatCompleter::new(vec![]);
    assert_eq!(c.get_suggestions("friend 12"), strings(&["friend <peer_id>"]));
    c.update_discovered_peers(strings(&["12D3Koo", "QmXyz"]));
    assert_eq!(c.get_suggestions("friend 12"), strings(&["friend 12D3Koo"]));
    assert_eq!(c.get_suggestions("friend qm"), strings(&["friend QmXyz"]));
    assert_eq!(c.get_suggestions("friend abc key"), strings(&["friend abc <e2e_public_key>"]));
    assert_eq!(c.get_suggestions("friend abc key nick"), strings(&["friend abc key <optional_nickname>"]));
    assert!(c.get_suggestions("friend a b c d").is_empty());
}

#[test]
fn updating_friends_changes_completion() {
    let mut c = ChatCompleter::new(strings(&["zed"]));
    assert_eq!(c.get_suggestions("send z"), strings(&["send zed"]));
    c.update_friends(strings(&["amy"]));
    assert!(c.get_suggestions("send z").is_empty());
}

#[test]
fn fuzzy_match_needs_the_letters_in_order() {
    let c = ChatCompleter::new(vec![]);
    assert!(c.fuzzy_match("hty", "history"));
    assert!(c.fuzzy_match("", "x"));
    assert!(!c.fuzzy_match("yh", "history"));
    assert!(!c.fuzzy_match("historyx", "history"));
    assert!(c.fuzzy_match("send", "send"));
}

#[test]
fn typing_and_backspace_edit_the_line() {
    let mut s = UIState::new();
    s.safe_insert_char('a');
    s.safe_insert_char('é');
    s.safe_insert_char('c');
    assert_eq!(s.input_buffer, "aéc");
    assert_eq!(s.cursor_pos, 3);
    s.safe_cursor_left();
    s.safe_cursor_left();
    s.safe_insert_char('X');
    assert_eq!(s.input_buffer, "aXéc");
    assert_eq!(s.cursor_pos, 2);
    assert!(s.safe_remove_char_before());
    assert_eq!(s.input_buffer, "aéc");
    assert_eq!(s.cursor_pos, 1);
    assert!(s.safe_remove_char_at());
    assert_eq!(s.input_buffer, "ac");
    s.safe_cursor_home();
    assert!(!s.safe_remove_char_before());
    s.safe_cursor_end();
    assert_eq!(s.cursor_pos, 2);
    assert!(!s.safe_remove_char_at());
    s.safe_cursor_right();
    assert_eq!(s.cursor_pos, 2);
}

#[test]
fn insert_past_the_end_appends() {
    let mut s = UIState::new();
    s.input_buffer = "ab".to_string();
    s.cursor_pos = 9;
    s.safe_insert_char('c');
    assert_eq!(s.input_buffer, "abc");
    assert_eq!(s.cursor_pos, 10);
    assert!(!s.safe_remove_char_before());
}

#[test]
fn backspace_undoes_typing() {
    let mut s = UIState::new();
    s.input_buffer = "hello".to_string();
    s.cursor_pos = 2;
    s.safe_insert_char('Z');
    assert!(s.safe_remove_char_before());
    assert_eq!(s.input_buffer, "hello");
    assert_eq!(s.cursor_pos, 2);
}

#[test]
fn toggle_mode_remembers_log_settings() {
    let mut s = UIState::new();
    s.toggle_mode();
    assert!(matches!(s.mode, UIMode::Logs { filter: None, level: LogLevel::Debug }));
    s.mode = UIMode::Logs { filter: Some("net".to_string()), level: LogLevel::Warn };
    s.toggle_mode();
    assert!(matches!(s.mode, UIMode::Chat));
    s.toggle_mode();
    match &s.mode {
        UIMode::Logs { filter, level } => {
            assert_eq!(filter.as_deref(), Some("net"));
            assert_eq!(*level, LogLevel::Warn);
        }
        UIMode::Chat => panic!("expected log mode"),
    }
    assert_eq!(s.scroll_offset, 0);
    assert!(s.is_at_bottom_chat && s.is_at_bottom_log);
}

fn message(id: u128, ts: i64) -> Message {
    Message {
        id,
        sender: vec![1],
        recipient: vec![2],
        timestamp: ts,
        content: b"hi".to_vec(),
        nonce: 0,
        delivery_status: DeliveryStatus::Delivered,
    }
}

#[test]
fn messages_are_shown_once() {
    let mut s = UIState::new();
    s.add_message_at(message(1, 0), 50);
    s.add_message_at(message(1, 0), 60);
    s.add_message_at(message(2, 0), 70);
    assert_eq!(s.messages.len(), 2);
    assert_eq!(s.messages[0].received_at, 50);
    assert!(s.contains_message(2));
    assert!(!s.contains_message(3));
    s.add_message(message(3, 0));
    assert_eq!(s.messages.len(), 3);
}

#[test]
fn replaced_messages_arrive_at_their_timestamps() {
    let mut s = UIState::new();
    s.scroll_offset = 4;
    s.is_at_bottom_chat = false;
    s.replace_messages_at(vec![message(1, 1_000), message(2, i64::MAX)], 77);
    assert_eq!(s.messages.len(), 2);
    assert_eq!(s.messages[0].received_at, 1_000);
    assert_eq!(s.messages[1].received_at, 77);
    assert_eq!(s.scroll_offset, 0);
    assert!(s.is_at_bottom_chat);
    s.replace_messages(vec![message(5, 2_000)]);
    assert_eq!(s.messages[0].received_at, 2_000);
}

#[test]
fn chat_lines_count_like_str_lines() {
    let mut s = UIState::new();
    s.add_chat_message_at("one\ntwo\r\n".to_string(), 1);
    s.add_chat_message_at(String::new(), 2);
    s.add_chat_message_at("x\n\ny".to_string(), 3);
    assert_eq!(s.calculate_total_chat_items(), 5);
    assert_eq!(s.chat_messages.len(), 3);
    s.add_chat_message("later".to_string());
    assert_eq!(s.calculate_total_chat_items(), 6);
}

#[test]
fn history_output_is_marked_line_by_line() {
    let mut s = UIState::new();
    s.add_history_output_at("first\n  \nsecond".to_string(), 9);
    let texts: Vec<&str> = s.chat_messages.iter().map(|(_, t)| t.as_str()).collect();
    assert_eq!(texts, vec!["__HISTORY_OUTPUT__first", "  ", "__HISTORY_OUTPUT__second"]);
    assert!(s.chat_messages.iter().all(|(t, _)| *t == 9));
}

#[test]
fn chat_scroll_stays_in_view() {
    let mut s = UIState::new();
    s.terminal_size = (80, 6);
    for i in 0..10 {
        s.add_chat_message_at(format!("line {}", i), i);
    }
    s.scroll_offset = 100;
    s.update_chat_scroll_state(6);
    assert_eq!(s.scroll_offset, 6);
    assert!(!s.is_at_bottom_chat);
    s.add_chat_message_at("more".to_string(), 11);
    assert_eq!(s.scroll_offset, 7);
    s.jump_to_bottom_chat();
    assert_eq!(s.scroll_offset, 0);
    assert!(s.is_at_bottom_chat);
    s.scroll_offset = 3;
    s.update_chat_scroll_state(100);
    assert_eq!(s.scroll_offset, 0);
    assert!(s.is_at_bottom_chat);
}

fn entry(level: LogLevel, module: &str, message: &str) -> LogEntry {
    LogEntry { timestamp: 0, level, module: module.to_string(), message: message.to_string() }
}

#[test]
fn log_buffer_keeps_the_newest() {
    let mut s = UIState::new();
    s.max_log_entries = 3;
    s.add_log_batch(vec![
        entry(LogLevel::Info, "a", "1"),
        entry(LogLevel::Info, "a", "2"),
        entry(LogLevel::Info, "a", "3"),
        entry(LogLevel::Info, "a", "4"),
    ]);
    let msgs: Vec<&str> = s.logs.iter().map(|e| e.message.as_str()).collect();
    assert_eq!(msgs, vec!["2", "3", "4"]);
}

#[test]
fn logs_filter_by_level_and_text() {
    let mut s = UIState::new();
    s.add_log_batch(vec![
        entry(LogLevel::Error, "net::swarm", "down"),
        entry(LogLevel::Debug, "sync", "tick"),
        entry(LogLevel::Trace, "net::kad", "query"),
        entry(LogLevel::Info, "ui", "net ready"),
    ]);
    assert_eq!(s.filtered_logs().len(), 4);
    s.mode = UIMode::Logs { filter: None, level: LogLevel::Debug };
    assert_eq!(s.filtered_logs().len(), 3);
    s.mode = UIMode::Logs { filter: Some("net".to_string()), level: LogLevel::Trace };
    let m: Vec<String> = s.filtered_logs().iter().map(|e| e.message.clone()).collect();
    assert_eq!(m, vec!["down", "query", "net ready"]);
    s.mode = UIMode::Logs { filter: Some("-net".to_string()), level: LogLevel::Trace };
    let m: Vec<String> = s.filtered_logs().iter().map(|e| e.message.clone()).collect();
    assert_eq!(m, vec!["tick", "net ready"]);
}

#[test]
fn log_scroll_follows_filtered_entries() {
    let mut s = UIState::new();
    s.terminal_size = (80, 4);
    s.mode = UIMode::Logs { filter: None, level: LogLevel::Trace };
    let batch: Vec<LogEntry> = (0..6).map(|i| entry(LogLevel::Info, "m", &i.to_string())).collect();
    s.add_log_batch(batch);
    assert_eq!(s.log_scroll_offset, 0);
    s.log_scroll_offset = 50;
    s.update_log_scroll_state(4);
    assert_eq!(s.log_scroll_offset, 4);
    assert!(!s.is_at_bottom_log);
    s.refresh_logs();
    assert_eq!(s.log_scroll_offset, 0);
    s.log_scroll_offset = 2;
    s.is_at_bottom_log = false;
    s.jump_to_bottom_log();
    assert!(s.is_at_bottom_log);
}

#[test]
fn chat_mode_enter_sends_a_message() {
    let mut m = ChatMode::new();
    let mut s = UIState::new();
    type_text(&mut m, &mut s, "send bob hello  there");
    let a = m.handle_key(&mut s, key(Key::Enter));
    match a {
        Some(UIAction::SendMessage(to, text)) => {
            assert_eq!(to, "bob");
            assert_eq!(text, "hello there");
        }
        other => panic!("unexpected {:?}", other),
    }
    assert_eq!(s.input_buffer, "");
    assert_eq!(s.cursor_pos, 0);
}

#[test]
fn chat_mode_enter_runs_other_commands() {
    let mut m = ChatMode::new();
    let mut s = UIState::new();
    type_text(&mut m, &mut s, "peers");
    assert!(matches!(m.handle_key(&mut s, key(Key::Enter)), Some(UIAction::ExecuteCommand(c)) if c == "peers"));
    type_text(&mut m, &mut s, "send bob");
    assert!(m.handle_key(&mut s, key(Key::Enter)).is_none());
    assert!(m.handle_key(&mut s, key(Key::Enter)).is_none());
}

#[test]
fn chat_mode_suggests_and_completes() {
    let mut m = ChatMode::new();
    let mut s = UIState::new();
    type_text(&mut m, &mut s, "hel");
    assert_eq!(m.get_current_suggestion(), Some("help"));
    m.handle_key(&mut s, key(Key::Right));
    assert_eq!(s.input_buffer, "help");
    assert_eq!(s.cursor_pos, 4);
    assert_eq!(m.get_current_suggestion(), None);
    let mut t = UIState::new();
    type_text(&mut m, &mut t, "pe");
    m.handle_key(&mut t, key(Key::Tab));
    assert_eq!(t.input_buffer, "peers");
}

#[test]
fn chat_mode_friend_updates_reach_completion() {
    let mut m = ChatMode::new();
    m.update_friends(strings(&["dora"]));
    m.update_discovered_peers(strings(&["QmPeer"]));
    let mut s = UIState::new();
    type_text(&mut m, &mut s, "send d");
    assert_eq!(m.get_current_suggestion(), Some("send dora"));
    let mut t = UIState::new();
    type_text(&mut m, &mut t, "friend Q");
    assert_eq!(m.get_current_suggestion(), Some("friend QmPeer"));
}

#[test]
fn chat_mode_walks_the_history() {
    let mut m = ChatMode::new();
    let mut s = UIState::new();
    type_text(&mut m, &mut s, "info");
    m.handle_key(&mut s, key(Key::Enter));
    type_text(&mut m, &mut s, "help");
    m.handle_key(&mut s, key(Key::Enter));
    m.handle_key(&mut s, key(Key::Up));
    assert_eq!(s.input_buffer, "help");
    m.handle_key(&mut s, key(Key::Up));
    assert_eq!(s.input_buffer, "info");
    m.handle_key(&mut s, key(Key::Up));
    assert_eq!(s.input_buffer, "info");
    m.handle_key(&mut s, key(Key::Down));
    assert_eq!(s.input_buffer, "help");
    m.handle_key(&mut s, key(Key::Down));
    assert_eq!(s.input_buffer, "");
    assert_eq!(s.cursor_pos, 0);
}

#[test]
fn chat_mode_scrolls_and_moves_the_view() {
    let mut m = ChatMode::new();
    let mut s = UIState::new();
    s.terminal_size = (80, 5);
    for i in 0..20 {
        s.add_chat_message_at(format!("{}", i), i);
    }
    m.handle_key(&mut s, key(Key::PageUp));
    assert_eq!(s.scroll_offset, 10);
    m.handle_key(&mut s, key(Key::PageUp));
    assert_eq!(s.scroll_offset, 17);
    m.handle_key(&mut s, key(Key::PageDown));
    assert_eq!(s.scroll_offset, 7);
    m.handle_key(&mut s, key(Key::Esc));
    assert_eq!(s.scroll_offset, 0);
    m.handle_key(&mut s, ctrl(Key::End));
    assert_eq!(s.horizontal_scroll_offset, 10);
    m.handle_key(&mut s, ctrl(Key::Home));
    assert_eq!(s.horizontal_scroll_offset, 0);
}

#[test]
fn log_mode_commands_set_level_filter_and_tail() {
    let mut l = LogMode::new();
    let mut s = UIState::new();
    s.toggle_mode();
    s.add_log_batch((0..5).map(|i| entry(LogLevel::Info, "m", &i.to_string())).collect());
    l.execute_log_command("level WARN", &mut s);
    assert!(matches!(s.mode, UIMode::Logs { level: LogLevel::Warn, .. }));
    l.execute_log_command("level loud", &mut s);
    assert!(matches!(s.mode, UIMode::Logs { level: LogLevel::Warn, .. }));
    l.execute_log_command("filter net  swarm", &mut s);
    match &s.mode {
        UIMode::Logs { filter, .. } => assert_eq!(filter.as_deref(), Some("net swarm")),
        UIMode::Chat => panic!(),
    }
    l.execute_log_command("filter", &mut s);
    assert!(matches!(s.mode, UIMode::Logs { filter: None, .. }));
    l.execute_log_command("tail 2", &mut s);
    let msgs: Vec<&str> = s.logs.iter().map(|e| e.message.as_str()).collect();
    assert_eq!(msgs, vec!["3", "4"]);
    l.execute_log_command("tail many", &mut s);
    assert_eq!(s.logs.len(), 2);
    l.execute_log_command("clear", &mut s);
    assert_eq!(s.logs.len(), 0);
    l.execute_log_command("help", &mut s);
    l.execute_log_command("export file.txt", &mut s);
}

#[test]
fn log_mode_keys_type_and_run_commands() {
    let mut l = LogMode::new();
    let mut s = UIState::new();
    s.toggle_mode();
    for c in "level error".chars() {
        l.handle_key(&mut s, key(Key::Char(c)));
    }
    l.handle_key(&mut s, key(Key::Enter));
    assert!(matches!(s.mode, UIMode::Logs { level: LogLevel::Error, .. }));
    assert_eq!(s.input_buffer, "");
    l.handle_key(&mut s, ctrl(Key::Up));
    assert_eq!(s.input_buffer, "level error");
    l.handle_key(&mut s, ctrl(Key::Down));
    assert_eq!(s.input_buffer, "");
}

#[test]
fn limit_parsing() {
    assert_eq!(parse_limit(None), Ok(20));
    assert_eq!(parse_limit(Some("5")), Ok(5));
    assert_eq!(parse_limit(Some("+1000")), Ok(1000));
    let err = "❌ Message count must be between 1 and 1000".to_string();
    assert_eq!(parse_limit(Some("0")), Err(err.clone()));
    assert_eq!(parse_limit(Some("1001")), Err(err.clone()));
    assert_eq!(parse_limit(Some("-3")), Err(err.clone()));
    assert_eq!(parse_limit(Some("")), Err(err.clone()));
    assert_eq!(parse_limit(Some("99999999999999999999999")), Err(err));
}

#[test]
fn command_names() {
    assert_eq!(command_named("send"), ChatCommand::Send);
    assert_eq!(command_named("friend"), ChatCommand::Friend);
    assert_eq!(command_named("friends"), ChatCommand::Friends);
    assert_eq!(command_named("history"), ChatCommand::History);
    assert_eq!(command_named("peers"), ChatCommand::Peers);
    assert_eq!(command_named("info"), ChatCommand::Info);
    assert_eq!(command_named("check"), ChatCommand::Check);
    assert_eq!(command_named("help"), ChatCommand::Help);
    assert_eq!(command_named("exit"), ChatCommand::Exit);
    assert_eq!(command_named("Send"), ChatCommand::Unknown);
}

#[test]
fn actions_become_command_lines() {
    assert!(matches!(plan_ui_action(UIAction::Exit), ActionPlan::Leave));
    assert!(matches!(plan_ui_action(UIAction::ExecuteCommand("  exit ".to_string())), ActionPlan::Leave));
    match plan_ui_action(UIAction::SendMessage("bob".to_string(), "hi there".to_string())) {
        ActionPlan::Run(line) => assert_eq!(line, "send bob hi there"),
        ActionPlan::Leave => panic!(),
    }
    match plan_ui_action(UIAction::ExecuteCommand("exit now".to_string())) {
        ActionPlan::Run(line) => assert_eq!(line, "exit now"),
        ActionPlan::Leave => panic!(),
    }
}

#[test]
fn send_and_history_arguments() {
    assert_eq!(send_arguments("send bob  a b"), Some(("bob".to_string(), "a b".to_string())));
    assert_eq!(send_arguments("send bob"), None);
    assert_eq!(history_arguments("history bob"), Some(("bob".to_string(), None)));
    assert_eq!(history_arguments("history bob 5"), Some(("bob".to_string(), Some("5".to_string()))));
    assert_eq!(history_arguments("history"), None);
    assert_eq!(history_arguments("history a b c"), None);
}

#[test]
fn friend_command_parses_peer_and_key() {
    let peer = libp2p::PeerId::random();
    let line = format!("friend {} aGVsbG8= dora", peer.to_base58());
    let f = parse_friend_command(&line).unwrap();
    assert_eq!(f.peer_id, peer.to_bytes());
    assert_eq!(f.e2e_public_key, b"hello".to_vec());
    assert_eq!(f.nickname.as_deref(), Some("dora"));
    let line2 = format!("friend {} aGVsbG8=", peer.to_base58());
    assert!(parse_friend_command(&line2).unwrap().nickname.is_none());
    assert_eq!(parse_friend_command("friend x").unwrap_err(), FriendCommandError::Usage);
    assert_eq!(parse_friend_command("friend notapeer aGVsbG8=").unwrap_err(), FriendCommandError::InvalidPeerId);
    let bad_key = format!("friend {} %%%", peer.to_base58());
    assert_eq!(parse_friend_command(&bad_key).unwrap_err(), FriendCommandError::InvalidKey);
}

#[test]
fn peers_resolve_by_id_or_nickname() {
    let peer = libp2p::PeerId::random();
    let friends = vec![
        Friend { peer_id: vec![1], e2e_public_key: vec![], nickname: None },
        Friend { peer_id: vec![2], e2e_public_key: vec![], nickname: Some("amy".to_string()) },
        Friend { peer_id: vec![3], e2e_public_key: vec![], nickname: Some("amy".to_string()) },
    ];
    assert_eq!(resolve_peer_id(&peer.to_base58(), &friends), Ok(peer.to_bytes()));
    assert_eq!(resolve_peer_id("amy", &friends), Ok(vec![2]));
    assert_eq!(resolve_peer_id("zed", &friends), Err(ResolveError::NotFound));
}

#[test]
fn short_peer_keeps_eight_bytes() {
    assert_eq!(short_peer("12345678"), "12345678");
    assert_eq!(short_peer("123456789"), "12345678...");
    assert_eq!(short_peer(""), "");
}

#[test]
fn identity_text_shows_key_in_base64() {
    assert_eq!(
        identity_text("QmPeer", b"hello"),
        "Your Identity:\n  Peer ID: QmPeer\n  E2E Public Key: aGVsbG8="
    );
}

#[test]
fn inert_log_commands_leave_the_state_unchanged() {
    let mut l = LogMode::new();
    let mut s = UIState::new();
    s.add_log_batch((0..3).map(|i| entry(LogLevel::Info, "m", &i.to_string())).collect());
    s.horizontal_scroll_offset = 7;
    s.connected_peers_count = 2;
    let before = format!("{:?}", s);
    for cmd in ["help", "foo", "   ", "", "export f", "level info", "filter x", "tail x", "tail"] {
        l.execute_log_command(cmd, &mut s);
        assert_eq!(format!("{:?}", s), before, "chat mode, command {:?}", cmd);
    }
    s.toggle_mode();
    let before = format!("{:?}", s);
    for cmd in ["help", "level bogus", "level", "tail many", "export"] {
        l.execute_log_command(cmd, &mut s);
        assert_eq!(format!("{:?}", s), before, "log mode, command {:?}", cmd);
    }
}

#[test]
fn identity_text_uses_the_whole_base64_alphabet_and_padding() {
    let all: Vec<u8> = vec![
        0, 16, 131, 16, 81, 135, 32, 146, 139, 48, 211, 143, 65, 20, 147, 81, 85, 151, 97, 150, 155, 113, 215, 159,
        130, 24, 163, 146, 89, 167, 162, 154, 171, 178, 219, 175, 195, 28, 179, 211, 93, 183, 227, 158, 187, 243,
        223, 191,
    ];
    assert_eq!(
        identity_text("p", &all),
        "Your Identity:\n  Peer ID: p\n  E2E Public Key: ABCDEFGHIJKLMNOPQRSTUVWXYZabcdefghijklmnopqrstuvwxyz0123456789+/"
    );
    assert_eq!(identity_text("p", b"M"), "Your Identity:\n  Peer ID: p\n  E2E Public Key: TQ==");
    assert_eq!(identity_text("p", b"Ma"), "Your Identity:\n  Peer ID: p\n  E2E Public Key: TWE=");
    assert_eq!(identity_text("p", &[0xfb, 0xff]), "Your Identity:\n  Peer ID: p\n  E2E Public Key: +/8=");
    assert_eq!(identity_text("p", b""), "Your Identity:\n  Peer ID: p\n  E2E Public Key: ");
}

#[test]
fn sent_messages_leave_the_outbox_only_when_delivered() {
    let m = outgoing_message(7, vec![1], vec![2], 1_000, vec![9, 9], 42);
    assert_eq!(m.id, 7);
    assert_eq!(m.sender, vec![1]);
    assert_eq!(m.recipient, vec![2]);
    assert_eq!(m.timestamp, 1_000);
    assert_eq!(m.content, vec![9, 9]);
    assert_eq!(m.nonce, 42);
    assert_eq!(m.delivery_status, DeliveryStatus::Sending);
    assert!(removes_pending(&Delivery::Direct));
    assert!(removes_pending(&Delivery::Mailboxes(2)));
    assert!(!removes_pending(&Delivery::Mailboxes(0)));
    assert!(!removes_pending(&Delivery::MailboxError));
    assert!(!removes_pending(&Delivery::NoMailboxes));
    assert!(discover_before_forwarding(0));
    assert!(!discover_before_forwarding(1));
}

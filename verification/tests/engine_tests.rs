use p2p_chat::peers::{PeerMap, PeerSet};
use p2p_chat::sync::engine::events::{DhtQueryResult, SyncAction, SyncEvent};
use p2p_chat::sync::engine::mailbox::{
    acknowledge_failed,
    acknowledge_fetched, ReconstructError, FETCH_LIMIT,
};
use p2p_chat::sync::engine::performance::MailboxPerformance;
use p2p_chat::sync::engine::{SyncEngine, SyncStores, DEFAULT_SYNC_INTERVAL_MS};
use p2p_chat::types::{delivery_confirmation_request, ChatRequest, DeliveryStatus, EncryptedMessage, Message};

fn peers(keys: &[u8]) -> PeerSet {
    let mut s = PeerSet::new();
    for k in keys {
        s.insert(vec![*k]);
    }
    s
}

fn engine_with(keys: &[u8]) -> SyncEngine {
    let mut e = SyncEngine::new(0);
    e.record_query_started(1, b"mailbox".to_vec(), 0);
    let found = SyncEvent::DhtQueryResult {
        query_id: 1,
        result: DhtQueryResult::ProvidersFound { providers: peers(keys), finished: true },
    };
    e.handle_event(&found, 0, 1300);
    e
}

#[test]
fn new_engine_defaults_interval() {
    let e = SyncEngine::new(0);
    assert_eq!(e.interval, DEFAULT_SYNC_INTERVAL_MS);
    assert!(e.discovered_mailboxes.is_empty());
    assert!(e.last_discovery_time.is_none());
    let f = SyncEngine::new(1234);
    assert_eq!(f.interval, 1234);
}

#[test]
fn sync_stores_keep_what_they_are_given() {
    let s = SyncStores::new(1u8, 2u16, 3u32, 4u64, "known");
    assert_eq!(s.friends, 1);
    assert_eq!(s.outbox, 2);
    assert_eq!(s.history, 3);
    assert_eq!(s.seen, 4);
    assert_eq!(s.known_mailboxes, "known");
}

#[test]
fn mailbox_performance_starts_neutral() {
    let p = MailboxPerformance::new();
    assert_eq!(p.success_count, 0);
    assert_eq!(p.failure_count, 0);
    assert_eq!(p.consecutive_failures, 0);
    assert_eq!(p.avg_response_time, 1000);
    assert!(p.last_success.is_none() && p.last_failure.is_none());
}

#[test]
fn interactions_keep_the_weighted_average_given() {
    let mut p = MailboxPerformance::new();
    p.record_interaction(true, 1300, 10);
    assert_eq!(p.avg_response_time, 1300);
    assert_eq!(p.success_count, 1);
    assert_eq!(p.last_success, Some(10));
    p.record_interaction(false, 909, 20);
    assert_eq!(p.avg_response_time, 909);
    assert_eq!(p.failure_count, 1);
    assert_eq!(p.consecutive_failures, 1);
    assert_eq!(p.last_failure, Some(20));
}

#[test]
fn discovery_is_due_until_enough_mailboxes() {
    let mut e = SyncEngine::new(0);
    assert!(e.discovery_due(false, 0));
    assert!(e.discover_mailboxes(100, true));
    assert_eq!(e.last_discovery_time, Some(100));
    assert!(!e.discover_mailboxes_if_needed(false, 20_000, true));
    assert!(e.discover_mailboxes_if_needed(true, 20_000, true));
    assert!(!e.discover_mailboxes_if_needed(true, 20_000, false));
    let full = engine_with(&[1, 2]);
    assert!(!full.discovery_due(false, 1_000_000));
}

#[test]
fn providers_found_join_the_pool_and_are_saved() {
    let mut e = SyncEngine::new(0);
    e.record_query_started(9, b"k".to_vec(), 0);
    assert!(e.has_pending_query_for(&b"k".to_vec()));
    let ev = SyncEvent::DhtQueryResult {
        query_id: 9,
        result: DhtQueryResult::ProvidersFound { providers: peers(&[5, 6]), finished: false },
    };
    let actions = e.handle_event(&ev, 0, 1300);
    assert!(e.discovered_mailboxes.contains(&vec![5]));
    assert!(e.discovered_mailboxes.contains(&vec![6]));
    assert!(e.has_pending_query_for(&b"k".to_vec()));
    let saves = actions.iter().filter(|a| matches!(a, SyncAction::SaveKnownMailbox(_))).count();
    assert_eq!(saves, 2);
    assert!(matches!(actions.last(), Some(SyncAction::RetryOutbox)));
    let done = SyncEvent::DhtQueryResult {
        query_id: 9,
        result: DhtQueryResult::QueryFailed { error: "timeout".to_string() },
    };
    let none = e.handle_event(&done, 0, 1300);
    assert!(none.is_empty());
    assert!(!e.has_pending_query_for(&b"k".to_vec()));
}

#[test]
fn results_for_unknown_queries_are_ignored() {
    let mut e = SyncEngine::new(0);
    let ev = SyncEvent::DhtQueryResult {
        query_id: 3,
        result: DhtQueryResult::ProvidersFound { providers: peers(&[1]), finished: true },
    };
    assert!(e.handle_event(&ev, 0, 1300).is_empty());
    assert!(e.discovered_mailboxes.is_empty());
}

#[test]
fn connected_mailbox_is_fetched_from() {
    let mut e = engine_with(&[1]);
    let actions = e.handle_event(&SyncEvent::PeerConnected(vec![1]), 0, 1300);
    assert_eq!(actions.len(), 3);
    assert!(matches!(actions[0], SyncAction::DiscoverMailboxesIfNeeded { force: false }));
    assert!(matches!(&actions[1], SyncAction::RetryOutboxForPeer(p) if *p == vec![1]));
    assert!(matches!(&actions[2], SyncAction::FetchFromMailbox(p) if *p == vec![1]));
    let other = e.handle_event(&SyncEvent::PeerConnected(vec![9]), 0, 1300);
    assert_eq!(other.len(), 2);
}

#[test]
fn failing_connections_forget_a_mailbox_after_three() {
    let mut e = engine_with(&[1]);
    for i in 0..2u64 {
        e.handle_event(&SyncEvent::PeerConnectionFailed(vec![1]), i * 10, 1300);
        assert!(e.discovered_mailboxes.contains(&vec![1]));
    }
    e.handle_event(&SyncEvent::PeerConnectionFailed(vec![1]), 30, 1300);
    assert!(!e.discovered_mailboxes.contains(&vec![1]));
    assert_eq!(e.mailbox_performance.get(&vec![1]).unwrap().avg_response_time, 1300);
    assert!(!e.should_forget_mailbox(&vec![2], 30));
}

#[test]
fn ranking_follows_the_scores_given() {
    let e = engine_with(&[1, 2, 3]);
    let mut scores = PeerMap::new();
    scores.set(vec![1], 0.12f64.to_bits());
    scores.set(vec![2], 0.87f64.to_bits());
    scores.set(vec![3], 0.5f64.to_bits());
    let ranked = e.get_available_mailboxes_at(10_000_000, &scores);
    assert_eq!(ranked, vec![vec![2], vec![3], vec![1]]);
}

#[test]
fn ranking_leaves_out_backed_off_mailboxes() {
    let mut e = engine_with(&[1, 2]);
    e.backoff_manager.record_attempt_with(vec![1], 0, 0);
    let mut scores = PeerMap::new();
    scores.set(vec![1], 0.9f64.to_bits());
    scores.set(vec![2], 0.1f64.to_bits());
    assert_eq!(e.get_available_mailboxes_at(10, &scores), vec![vec![2]]);
    assert_eq!(e.get_available_mailboxes_at(10_000, &scores), vec![vec![1], vec![2]]);
}

#[test]
fn emergency_mailboxes_are_connected_known_ones() {
    let e = engine_with(&[1, 2]);
    let connected = vec![vec![3], vec![2], vec![1]];
    assert_eq!(e.get_emergency_mailboxes(&connected), vec![vec![2], vec![1]]);
}

#[test]
fn outbox_plan_forces_discovery_without_mailboxes() {
    let e = SyncEngine::new(0);
    let p = e.plan_outbox_retry(3, true);
    assert!(p.proceed && p.force_discovery);
    assert!(!e.plan_outbox_retry(0, true).proceed);
    assert!(!e.plan_outbox_retry(3, false).proceed);
    let f = engine_with(&[1]);
    assert!(!f.plan_outbox_retry(3, true).force_discovery);
}

#[test]
fn direct_delivery_respects_backoff() {
    let mut e = SyncEngine::new(0);
    assert!(e.begin_direct_delivery(&vec![4], 1_000));
    assert!(!e.finish_direct_delivery(&vec![4], true, false, 1_000));
    assert!(!e.begin_direct_delivery(&vec![4], 1_100));
    assert!(!e.finish_direct_delivery(&vec![4], false, false, 1_100));
    assert!(e.begin_direct_delivery(&vec![4], 100_000));
    assert!(e.finish_direct_delivery(&vec![4], true, true, 100_000));
    let entry = e.backoff_manager.entry(&vec![4]).unwrap();
    assert_eq!(entry.attempt_count, 0);
}

#[test]
fn forward_stops_after_two_copies() {
    let mut e = engine_with(&[1, 2, 3, 4, 5]);
    let mut run = e.begin_forward(0, &PeerMap::new());
    assert_eq!(run.limit, 4);
    let mut offered = 0;
    while let Some(p) = run.next_target(&e) {
        offered += 1;
        run.record_result(&mut e, &p, true, 50, 0);
    }
    assert_eq!(offered, 2);
    assert!(e.finish_forward(run, 0));
}

#[test]
fn forward_forgets_mailboxes_that_keep_refusing() {
    let mut e = engine_with(&[1]);
    e.update_mailbox_performance(vec![1], false, 10, 0);
    e.backoff_manager.record_success(&vec![1]);
    e.update_mailbox_performance(vec![1], false, 10, 0);
    e.backoff_manager.record_success(&vec![1]);
    let mut run = e.begin_forward(10_000, &PeerMap::new());
    let p = run.next_target(&e).unwrap();
    run.record_result(&mut e, &p, false, 10, 10_000);
    assert_eq!(run.to_forget, vec![vec![1]]);
    assert!(run.next_target(&e).is_none());
    assert!(!e.finish_forward(run, 10_000));
    assert!(!e.discovered_mailboxes.contains(&vec![1]));
}

#[test]
fn forward_with_no_candidates_fails() {
    let mut e = SyncEngine::new(0);
    let mut run = e.begin_forward(0, &PeerMap::new());
    assert_eq!(run.limit, 0);
    assert!(run.next_target(&e).is_none());
    assert!(!run.succeeded());
    assert!(!e.finish_forward(run, 0));
}

#[test]
fn failed_fetch_counts_four_failures() {
    let mut e = engine_with(&[1]);
    assert!(e.should_fetch_from(&vec![1], 0));
    let forgotten = e.record_fetch_failure(&vec![1], &vec![900, 800, 700, 600], 0);
    assert!(forgotten);
    assert!(!e.discovered_mailboxes.contains(&vec![1]));
    let p = e.mailbox_performance.get(&vec![1]).unwrap();
    assert_eq!(p.failure_count, 4);
    assert_eq!(p.consecutive_failures, 4);
    assert_eq!(p.avg_response_time, 600);
    assert_eq!(e.backoff_manager.entry(&vec![1]).unwrap().attempt_count, 5);
    assert!(!e.should_fetch_from(&vec![1], 0));
    assert_eq!(FETCH_LIMIT, 100);
}

#[test]
fn stale_queries_are_dropped() {
    let mut e = SyncEngine::new(0);
    e.record_query_started(1, b"a".to_vec(), 0);
    e.record_query_started(2, b"b".to_vec(), 3_650_000);
    e.cleanup_stale_dht_queries(3_700_000);
    assert!(!e.has_pending_query_for(&b"a".to_vec()));
    assert!(e.has_pending_query_for(&b"b".to_vec()));
}

#[test]
fn failing_mailboxes_are_cleaned_up() {
    let mut e = engine_with(&[1, 2]);
    for _ in 0..3 {
        e.update_mailbox_performance(vec![1], false, 10, 0);
    }
    e.cleanup_failing_mailboxes(0);
    assert!(!e.discovered_mailboxes.contains(&vec![1]));
    assert!(e.discovered_mailboxes.contains(&vec![2]));
}

fn encrypted(id: u128) -> EncryptedMessage {
    EncryptedMessage {
        id,
        sender: vec![9, 9],
        recipient_hash: [7u8; 32],
        encrypted_content: vec![1, 2, 3],
        timestamp: 1_700_000_000_000,
        nonce: 42,
        sender_pub_key: vec![5],
    }
}

#[test]
fn fetched_message_is_rebuilt_as_delivered() {
    let m = SyncEngine::reconstruct_message_from_mailbox(&encrypted(11), &vec![1], b"hello".to_vec()).unwrap();
    assert_eq!(m.id, 11);
    assert_eq!(m.sender, vec![9, 9]);
    assert_eq!(m.recipient, vec![1]);
    assert_eq!(m.timestamp, 1_700_000_000_000);
    assert_eq!(m.content, b"hello".to_vec());
    assert_eq!(m.nonce, 42);
    assert_eq!(m.delivery_status, DeliveryStatus::Delivered);
}

#[test]
fn fetched_message_that_is_not_text_is_refused() {
    let r = SyncEngine::reconstruct_message_from_mailbox(&encrypted(1), &vec![1], vec![0xff, 0xfe]);
    assert_eq!(r.unwrap_err(), ReconstructError::InvalidUtf8);
}

#[test]
fn seen_or_stored_messages_are_acknowledged() {
    assert!(acknowledge_fetched(true, false));
    assert!(acknowledge_fetched(false, true));
    assert!(!acknowledge_fetched(false, false));
}

#[test]
fn delivery_confirmation_names_the_message() {
    match delivery_confirmation_request(5, 77) {
        ChatRequest::DeliveryConfirmation { confirmation } => {
            assert_eq!(confirmation.original_message_id, 5);
            assert_eq!(confirmation.timestamp, 77);
        }
        _ => panic!("wrong request"),
    }
}

#[test]
fn delivery_status_defaults_to_sending() {
    assert_eq!(DeliveryStatus::default(), DeliveryStatus::Sending);
}

#[test]
fn message_duplicate_is_equal() {
    let m = Message {
        id: 3,
        sender: vec![1],
        recipient: vec![2],
        timestamp: 4,
        content: vec![5],
        nonce: 6,
        delivery_status: DeliveryStatus::Sent,
    };
    let d = m.duplicate();
    assert_eq!(d.id, 3);
    assert_eq!(d.content, vec![5]);
    assert_eq!(d.delivery_status, DeliveryStatus::Sent);
}

#[test]
fn old_failures_do_not_count_in_the_window() {
    let mut e = SyncEngine::new(0);
    let day: u64 = 86_400_000;
    for i in 0..4u64 {
        e.update_mailbox_performance(vec![1], false, 10, i * 10);
        e.update_mailbox_performance(vec![1], true, 10, i * 10 + 5);
    }
    e.update_mailbox_performance(vec![1], false, 10, day);
    let p = e.mailbox_performance.get(&vec![1]).unwrap();
    assert_eq!(p.failure_count, 5);
    assert_eq!(p.consecutive_failures, 1);
    assert!(!e.should_forget_mailbox(&vec![1], day + 10_000));
}

#[test]
fn five_failures_in_the_window_forget() {
    let mut e = SyncEngine::new(0);
    for i in 0..5u64 {
        e.update_mailbox_performance(vec![1], false, 10, 1_000 + i * 1_000);
        e.update_mailbox_performance(vec![1], true, 10, 1_500 + i * 1_000);
    }
    assert!(e.should_forget_mailbox(&vec![1], 30_000));
    assert!(!e.should_forget_mailbox(&vec![1], 200_000));
}

#[test]
fn queries_start_only_for_keys_without_a_pending_query() {
    let mut e = SyncEngine::new(0);
    e.record_query_started(1, b"prov".to_vec(), 0);
    let keys = vec![b"prov".to_vec(), b"mine".to_vec(), b"mine".to_vec(), b"other".to_vec()];
    assert_eq!(e.queries_to_start(&keys), vec![b"mine".to_vec(), b"other".to_vec()]);
}

#[test]
fn acknowledging_fails_only_when_every_mailbox_failed() {
    assert!(acknowledge_failed(3, 3));
    assert!(!acknowledge_failed(2, 3));
    assert!(!acknowledge_failed(0, 0));
}

use p2p_chat::sync::backoff::{BackoffEntry, BackoffManager, MAX_BACKOFF_MS, MIN_BACKOFF_MS};

#[test]
fn new_entry_waits_one_second() {
    let e = BackoffEntry::new_at(5_000);
    assert_eq!(e.attempt_count, 0);
    assert_eq!(e.last_attempt, 5_000);
    assert_eq!(e.next_attempt_after, MIN_BACKOFF_MS);
    assert!(!e.can_retry_at(5_999));
    assert!(e.can_retry_at(6_000));
    assert_eq!(e.time_until_retry_at(5_400), 600);
    assert_eq!(e.time_until_retry_at(7_000), 0);
}

#[test]
fn attempts_double_the_backoff_up_to_five_minutes() {
    let mut e = BackoffEntry::new_at(0);
    let expected = [1_000u64, 2_000, 4_000, 8_000, 16_000, 32_000, 64_000, 128_000, 256_000, 300_000, 300_000];
    for (i, want) in expected.iter().enumerate() {
        e.record_attempt_with(10, 0);
        assert_eq!(e.attempt_count, (i + 1) as u32);
        assert_eq!(e.last_attempt, 10);
        assert_eq!(e.next_attempt_after, *want);
    }
    assert_eq!(MAX_BACKOFF_MS, 300_000);
}

#[test]
fn jitter_moves_the_backoff_by_thousandths() {
    let mut e = BackoffEntry::new_at(0);
    e.record_attempt_with(0, -100);
    assert_eq!(e.next_attempt_after, 900);
    let mut f = BackoffEntry::new_at(0);
    f.record_attempt_with(0, 99);
    assert_eq!(f.next_attempt_after, 1_099);
    let mut g = BackoffEntry::new_at(0);
    g.record_attempt_with(0, 0);
    g.record_attempt_with(0, 50);
    assert_eq!(g.next_attempt_after, 2_100);
}

#[test]
fn random_jitter_stays_within_ten_percent() {
    for _ in 0..50 {
        let mut e = BackoffEntry::new_at(0);
        e.record_attempt_at(1_000);
        assert!(e.next_attempt_after >= 900 && e.next_attempt_after < 1_100);
        assert_eq!(e.last_attempt, 1_000);
    }
}

#[test]
fn gives_up_after_ten_attempts() {
    let mut e = BackoffEntry::new_at(0);
    for _ in 0..9 {
        e.record_attempt_with(0, -100);
        assert!(!e.should_give_up());
    }
    e.record_attempt_with(0, -100);
    assert!(e.should_give_up());
}

#[test]
fn success_resets_the_backoff() {
    let mut e = BackoffEntry::new_at(0);
    e.record_attempt_with(100, 0);
    e.record_attempt_with(100, 0);
    e.record_success();
    assert_eq!(e.attempt_count, 0);
    assert_eq!(e.next_attempt_after, MIN_BACKOFF_MS);
    assert_eq!(e.last_attempt, 100);
    assert!(e.can_retry_at(1_100));
    assert!(!e.can_retry_at(1_099));
}

#[test]
fn attempt_blocks_an_immediate_retry() {
    let mut e = BackoffEntry::new_at(0);
    e.record_attempt_with(50_000, -100);
    assert!(!e.can_retry_at(50_000));
    assert!(e.time_until_retry_at(50_000) > 0);
}

#[test]
fn clock_before_last_attempt_counts_as_no_time() {
    let e = BackoffEntry::new_at(10_000);
    assert_eq!(e.time_until_retry_at(0), 1_000);
    assert!(!e.can_retry_at(0));
}

#[test]
fn live_clock_entry_is_usable() {
    let mut e = BackoffEntry::new();
    assert_eq!(e.attempt_count, 0);
    assert!(e.time_until_retry() <= MIN_BACKOFF_MS);
    e.record_attempt();
    assert_eq!(e.attempt_count, 1);
    assert!(!e.can_retry());
}

#[test]
fn manager_lets_unknown_peers_through() {
    let m = BackoffManager::new();
    assert!(m.can_attempt_at(&vec![1], 0));
    assert!(m.entry(&vec![1]).is_none());
    assert_eq!(m.time_until_retry_at(&vec![1], 0), None);
    assert_eq!(m.len(), 0);
}

#[test]
fn manager_backs_off_failing_peers() {
    let mut m = BackoffManager::new();
    m.record_attempt_with(vec![1], 1_000, 0);
    assert!(!m.can_attempt_at(&vec![1], 1_500));
    assert_eq!(m.time_until_retry_at(&vec![1], 1_500), Some(500));
    assert!(m.can_attempt_at(&vec![1], 2_000));
    assert!(m.can_attempt_at(&vec![2], 1_500));
    m.record_attempt_with(vec![1], 2_000, 0);
    assert_eq!(m.entry(&vec![1]).unwrap().next_attempt_after, 2_000);
    m.record_success(&vec![1]);
    let e = m.entry(&vec![1]).unwrap();
    assert_eq!(e.attempt_count, 0);
    assert_eq!(e.next_attempt_after, MIN_BACKOFF_MS);
}

#[test]
fn manager_blocks_peers_that_gave_up() {
    let mut m = BackoffManager::new();
    for _ in 0..10 {
        m.record_attempt_with(vec![7], 0, -100);
    }
    assert!(!m.can_attempt_at(&vec![7], u64::MAX));
}

#[test]
fn manager_failure_counts_as_attempt() {
    let mut m = BackoffManager::new();
    m.record_failure_at(vec![3], 500);
    let e = m.entry(&vec![3]).unwrap();
    assert_eq!(e.attempt_count, 1);
    assert_eq!(e.last_attempt, 500);
    m.record_failure(vec![4]);
    assert_eq!(m.entry(&vec![4]).unwrap().attempt_count, 1);
}

#[test]
fn manager_cleanup_drops_old_entries() {
    let mut m = BackoffManager::new();
    m.record_attempt_with(vec![1], 1_000, 0);
    m.record_attempt_with(vec![2], 9_000, 0);
    m.cleanup_old_entries_at(5_000, 10_000);
    assert!(m.entry(&vec![1]).is_none());
    assert!(m.entry(&vec![2]).is_some());
    assert_eq!(m.len(), 1);
    m.cleanup_old_entries_at(0, 9_000);
    assert!(m.entry(&vec![2]).is_some());
}

#[test]
fn manager_default_is_empty() {
    let m = BackoffManager::default();
    assert_eq!(m.len(), 0);
}

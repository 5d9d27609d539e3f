use p2p_chat::sync::retry::RetryPolicy;

#[test]
fn fast_mailbox_policy() {
    let p = RetryPolicy::fast_mailbox();
    assert_eq!(p.max_attempts, 4);
    assert_eq!(p.base_delay, 50);
    assert_eq!(p.max_delay, 500);
}

#[test]
fn new_keeps_its_settings() {
    let p = RetryPolicy::new(7, 10, 100);
    assert_eq!(p.max_attempts, 7);
    assert_eq!(p.base_delay, 10);
    assert_eq!(p.max_delay, 100);
}

#[test]
fn exponential_backoff_doubles_and_caps() {
    let p = RetryPolicy::fast_mailbox();
    assert_eq!(p.exponential_backoff(0), 50);
    assert_eq!(p.exponential_backoff(1), 100);
    assert_eq!(p.exponential_backoff(2), 200);
    assert_eq!(p.exponential_backoff(3), 400);
    assert_eq!(p.exponential_backoff(4), 500);
    assert_eq!(p.exponential_backoff(40), 500);
    assert_eq!(p.exponential_backoff(64), 500);
    assert_eq!(p.exponential_backoff(u32::MAX), 500);
}

#[test]
fn jitter_adds_up_to_a_quarter() {
    let p = RetryPolicy::fast_mailbox();
    let base = p.exponential_backoff(2);
    for _ in 0..50 {
        let d = p.exponential_backoff_with_jitter(2);
        assert!(d >= base && d <= base + base / 4);
    }
    assert_eq!(p.exponential_backoff_with_jitter_from(2, 0), 200);
}

#[test]
fn no_delay_after_the_last_attempt() {
    let p = RetryPolicy::fast_mailbox();
    assert_eq!(p.delay_after_failure(3, 0), None);
    assert_eq!(p.delay_after_failure(0, 0), Some(50));
    assert!(p.delay_after_failure(1, 7).is_some());
}

#[test]
fn huge_base_delay_saturates_at_max_delay() {
    let p = RetryPolicy::new(3, u64::MAX, 1_000);
    assert_eq!(p.exponential_backoff(0), 1_000);
    assert_eq!(p.exponential_backoff(5), 1_000);
    let q = RetryPolicy::new(3, 0, 1_000);
    assert_eq!(q.exponential_backoff(100), 0);
}

use p2p_chat::clock::{millis_from_reading, now_ms, MAX_REPRESENTABLE_MS, MIN_REPRESENTABLE_MS};
use p2p_chat::types::{DeliveryStatus, Message};
use p2p_chat::ui::state::UIState;

#[test]
fn reading_after_epoch_is_kept() {
    assert_eq!(millis_from_reading(1_700_000_000_123), 1_700_000_000_123);
    assert_eq!(millis_from_reading(0), 0);
}

#[test]
fn reading_before_epoch_is_zero() {
    assert_eq!(millis_from_reading(-1), 0);
    assert_eq!(millis_from_reading(i64::MIN), 0);
}

#[test]
fn live_clock_is_after_2020_and_fits_i64() {
    let now = now_ms();
    assert!(now > 1_577_836_800_000);
    assert!(now <= i64::MAX as u64);
}

#[test]
fn representable_range_ends_where_chrono_ends() {
    assert!(chrono::DateTime::from_timestamp_millis(MIN_REPRESENTABLE_MS).is_some());
    assert!(chrono::DateTime::from_timestamp_millis(MIN_REPRESENTABLE_MS - 1).is_none());
    assert!(chrono::DateTime::from_timestamp_millis(MAX_REPRESENTABLE_MS).is_some());
    assert!(chrono::DateTime::from_timestamp_millis(MAX_REPRESENTABLE_MS + 1).is_none());
}

#[test]
fn preloaded_messages_arrive_at_their_time_when_representable() {
    let msg = |id: u128, ts: i64| Message {
        id,
        sender: vec![1],
        recipient: vec![2],
        timestamp: ts,
        content: vec![],
        nonce: 0,
        delivery_status: DeliveryStatus::Sending,
    };
    let mut s = UIState::new();
    s.replace_messages_at(vec![msg(1, MAX_REPRESENTABLE_MS), msg(2, MAX_REPRESENTABLE_MS + 1), msg(3, -5)], 42);
    assert_eq!(s.messages[0].received_at, MAX_REPRESENTABLE_MS);
    assert_eq!(s.messages[1].received_at, 42);
    assert_eq!(s.messages[2].received_at, -5);
}

use channels_console::stats::{ChannelState, ChannelStats, ChannelType, LogEntry};

fn fresh(channel_type: ChannelType) -> ChannelStats {
    ChannelStats::new(
        1,
        "src/main.rs:10".to_string(),
        None,
        channel_type,
        "i32".to_string(),
        4,
        0,
    )
}

#[test]
fn state_as_str_forms() {
    assert_eq!(ChannelState::Active.as_str(), "active");
    assert_eq!(ChannelState::Closed.as_str(), "closed");
    assert_eq!(ChannelState::Full.as_str(), "full");
    assert_eq!(ChannelState::Notified.as_str(), "notified");
}

#[test]
fn state_default_is_active() {
    assert_eq!(ChannelState::default(), ChannelState::Active);
}

#[test]
fn new_record_starts_empty() {
    let ch = fresh(ChannelType::Bounded(10));
    assert_eq!(ch.sent_count, 0);
    assert_eq!(ch.received_count, 0);
    assert_eq!(ch.state, ChannelState::Active);
    assert_eq!(ch.sent_logs.len(), 0);
    assert_eq!(ch.received_logs.len(), 0);
}

#[test]
fn queued_subtracts_one_in_hand() {
    let mut ch = fresh(ChannelType::Bounded(10));
    ch.sent_count = 5;
    ch.received_count = 2;
    assert_eq!(ch.queued(), 2);
}

#[test]
fn queued_saturates_at_zero() {
    let mut ch = fresh(ChannelType::Bounded(10));
    ch.sent_count = 3;
    ch.received_count = 3;
    assert_eq!(ch.queued(), 0);
    ch.received_count = 4;
    assert_eq!(ch.queued(), 0);
}

#[test]
fn byte_totals_scale_with_type_size() {
    let mut ch = fresh(ChannelType::Bounded(10));
    ch.sent_count = 6;
    ch.received_count = 1;
    assert_eq!(ch.total_bytes(), 24);
    assert_eq!(ch.queued(), 4);
    assert_eq!(ch.queued_bytes(), 16);
}

#[test]
fn update_state_marks_bounded_full() {
    let mut ch = fresh(ChannelType::Bounded(2));
    ch.sent_count = 3;
    ch.received_count = 0;
    ch.update_state();
    assert_eq!(ch.state, ChannelState::Full);
}

#[test]
fn update_state_returns_to_active() {
    let mut ch = fresh(ChannelType::Bounded(2));
    ch.sent_count = 3;
    ch.received_count = 0;
    ch.update_state();
    assert_eq!(ch.state, ChannelState::Full);
    ch.received_count = 2;
    ch.update_state();
    assert_eq!(ch.state, ChannelState::Active);
}

#[test]
fn update_state_unbounded_never_full() {
    let mut ch = fresh(ChannelType::Unbounded);
    ch.sent_count = 1_000_000;
    ch.received_count = 0;
    ch.update_state();
    assert_eq!(ch.state, ChannelState::Active);
}

#[test]
fn update_state_oneshot_full_at_one_queued() {
    let mut ch = fresh(ChannelType::Oneshot);
    ch.sent_count = 2;
    ch.received_count = 0;
    ch.update_state();
    assert_eq!(ch.state, ChannelState::Full);
}

#[test]
fn update_state_keeps_terminal_states() {
    let mut ch = fresh(ChannelType::Bounded(2));
    ch.state = ChannelState::Closed;
    ch.sent_count = 10;
    ch.update_state();
    assert_eq!(ch.state, ChannelState::Closed);
    ch.state = ChannelState::Notified;
    ch.update_state();
    assert_eq!(ch.state, ChannelState::Notified);
}

#[test]
fn log_entry_keeps_fields() {
    let e = LogEntry::new(7, 1234, Some("payload".to_string()));
    assert_eq!(e.index, 7);
    assert_eq!(e.timestamp, 1234);
    assert_eq!(e.message, Some("payload".to_string()));
}

use channels_console::collector::{StatsEvent, StatsStore};
use channels_console::snapshot::compare_channel_stats;
use channels_console::stats::{ChannelState, ChannelStats, ChannelType};

fn created(id: u64, source: &str, label: Option<&str>, channel_type: ChannelType) -> StatsEvent {
    StatsEvent::Created {
        id,
        source: source.to_string(),
        display_label: label.map(|l| l.to_string()),
        channel_type,
        elem_type: "i32".to_string(),
        type_size: 4,
    }
}

fn sent(id: u64, ts: u64) -> StatsEvent {
    StatsEvent::MessageSent { id, log: None, timestamp: ts }
}

fn received(id: u64, ts: u64) -> StatsEvent {
    StatsEvent::MessageReceived { id, timestamp: ts }
}

#[test]
fn bounded_basic_snapshot() {
    let mut store = StatsStore::new(50);
    store.apply_event(created(1, "examples/basic.rs:12", Some("bounded"), ChannelType::Bounded(10)));
    for i in 0..3u64 {
        store.apply_event(sent(1, i));
    }
    for i in 0..3u64 {
        store.apply_event(received(1, 10 + i));
    }
    let rows = store.get_serializable_stats();
    assert_eq!(rows.len(), 1);
    let row = &rows[0];
    assert_eq!(row.channel_type.to_display_string(), "bounded[10]");
    assert_eq!(row.label, "bounded");
    assert!(row.has_custom_label);
    assert_eq!(row.sent_count, 3);
    assert_eq!(row.received_count, 3);
    assert_eq!(row.queued, 0);
    assert_eq!(row.state.as_str(), "active");
    assert_eq!(row.total_bytes, 12);
    assert_eq!(row.queued_bytes, 0);
}

#[test]
fn closure_propagation_states() {
    let mut store = StatsStore::new(50);
    store.apply_event(created(1, "a.rs:1", None, ChannelType::Bounded(4)));
    store.apply_event(created(2, "a.rs:2", None, ChannelType::Unbounded));
    store.apply_event(created(3, "a.rs:3", None, ChannelType::Oneshot));
    store.apply_event(created(4, "a.rs:4", None, ChannelType::Oneshot));

    // dropped outer senders: both forwarders report closure
    store.apply_event(StatsEvent::Closed { id: 1 });
    store.apply_event(StatsEvent::Closed { id: 1 });
    store.apply_event(StatsEvent::Closed { id: 2 });

    // a one-shot that delivers: sent, notified, then received
    store.apply_event(sent(3, 5));
    store.apply_event(StatsEvent::Notified { id: 3 });
    store.apply_event(received(3, 6));

    // a one-shot whose sender is dropped before sending
    store.apply_event(StatsEvent::Closed { id: 4 });

    let rows = store.get_serializable_stats();
    let state_of = |id: u64| {
        rows.iter()
            .find(|r| r.id == id)
            .map(|r| r.state)
            .expect("row missing")
    };
    assert_eq!(state_of(1).as_str(), "closed");
    assert_eq!(state_of(2).as_str(), "closed");
    assert_eq!(state_of(3).as_str(), "notified");
    assert_eq!(state_of(4).as_str(), "closed");
}

#[test]
fn terminal_state_sticks_in_snapshots() {
    let mut store = StatsStore::new(50);
    store.apply_event(created(1, "a.rs:1", None, ChannelType::Bounded(2)));
    store.apply_event(StatsEvent::Closed { id: 1 });
    store.apply_event(sent(1, 1));
    store.apply_event(received(1, 2));
    store.apply_event(StatsEvent::Notified { id: 1 });
    let rows = store.get_serializable_stats();
    assert_eq!(rows[0].state, ChannelState::Closed);
    assert_eq!(rows[0].sent_count, 1);
    assert_eq!(rows[0].received_count, 1);
}

#[test]
fn iter_disambiguation() {
    let mut store = StatsStore::new(50);
    for id in 1..=3u64 {
        store.apply_event(created(id, "examples/iter.rs:17", None, ChannelType::Bounded(1)));
    }
    let rows = store.get_serializable_stats();
    assert_eq!(rows.len(), 3);
    let labels: Vec<&str> = rows.iter().map(|r| r.label.as_str()).collect();
    assert_eq!(
        labels,
        vec!["examples/iter.rs:17", "examples/iter.rs:17-2", "examples/iter.rs:17-3"]
    );
    let iters: Vec<u32> = rows.iter().map(|r| r.iter).collect();
    assert_eq!(iters, vec![0, 1, 2]);
}

#[test]
fn logs_endpoint_caps_and_orders() {
    let mut store = StatsStore::new(50);
    store.apply_event(created(1, "a.rs:1", None, ChannelType::Unbounded));
    for i in 0..75u64 {
        store.apply_event(sent(1, i));
    }
    let logs = store.get_channel_logs("1").expect("known id");
    assert_eq!(logs.id, "1");
    assert_eq!(logs.sent_logs.len(), 50);
    let indices: Vec<u64> = logs.sent_logs.iter().map(|e| e.index).collect();
    let expected: Vec<u64> = (26..=75).rev().collect();
    assert_eq!(indices, expected);
    assert_eq!(logs.received_logs.len(), 0);
}

#[test]
fn logs_endpoint_misses() {
    let mut store = StatsStore::new(50);
    store.apply_event(created(1, "a.rs:1", None, ChannelType::Unbounded));
    assert!(store.get_channel_logs("2").is_none());
    assert!(store.get_channel_logs("not-a-number").is_none());
    assert!(store.get_channel_logs("").is_none());
}

#[test]
fn log_messages_are_kept() {
    let mut store = StatsStore::new(50);
    store.apply_event(created(1, "a.rs:1", None, ChannelType::Unbounded));
    store.apply_event(StatsEvent::MessageSent {
        id: 1,
        log: Some("\"hello\"".to_string()),
        timestamp: 42,
    });
    let logs = store.get_channel_logs("1").expect("known id");
    assert_eq!(logs.sent_logs.len(), 1);
    assert_eq!(logs.sent_logs[0].index, 1);
    assert_eq!(logs.sent_logs[0].timestamp, 42);
    assert_eq!(logs.sent_logs[0].message, Some("\"hello\"".to_string()));
}

#[test]
fn fullness_while_blocked() {
    let mut store = StatsStore::new(50);
    store.apply_event(created(1, "a.rs:1", None, ChannelType::Bounded(2)));
    for i in 0..3u64 {
        store.apply_event(sent(1, i));
    }
    let rows = store.get_serializable_stats();
    assert_eq!(rows[0].state.as_str(), "full");
    assert!(rows[0].queued >= 2);
}

#[test]
fn events_for_unknown_ids_are_dropped() {
    let mut store = StatsStore::new(50);
    store.apply_event(created(1, "a.rs:1", None, ChannelType::Unbounded));
    store.apply_event(sent(99, 1));
    store.apply_event(received(99, 2));
    store.apply_event(StatsEvent::Closed { id: 99 });
    let rows = store.get_serializable_stats();
    assert_eq!(rows.len(), 1);
    assert_eq!(rows[0].sent_count, 0);
    assert_eq!(rows[0].received_count, 0);
    assert_eq!(rows[0].state, ChannelState::Active);
}

#[test]
fn snapshot_sorts_labeled_rows_first() {
    let mut store = StatsStore::new(50);
    store.apply_event(created(1, "z.rs:1", None, ChannelType::Unbounded));
    store.apply_event(created(2, "a.rs:1", Some("zeta"), ChannelType::Unbounded));
    store.apply_event(created(3, "m.rs:1", Some("alpha"), ChannelType::Unbounded));
    store.apply_event(created(4, "b.rs:1", None, ChannelType::Unbounded));
    let rows = store.get_serializable_stats();
    let ids: Vec<u64> = rows.iter().map(|r| r.id).collect();
    assert_eq!(ids, vec![3, 2, 4, 1]);
}

#[test]
fn log_limit_zero_keeps_one_entry() {
    let mut store = StatsStore::new(0);
    store.apply_event(created(1, "a.rs:1", None, ChannelType::Unbounded));
    for i in 0..5u64 {
        store.apply_event(sent(1, i));
    }
    let logs = store.get_channel_logs("1").expect("known id");
    assert_eq!(logs.sent_logs.len(), 1);
    assert_eq!(logs.sent_logs[0].index, 5);
}

#[test]
fn compare_orders_by_label_then_iter() {
    let mk = |label: Option<&str>, source: &str, iter: u32| {
        let mut ch = ChannelStats::new(
            0,
            source.to_string(),
            label.map(|l| l.to_string()),
            ChannelType::Unbounded,
            "u8".to_string(),
            1,
            iter,
        );
        ch.iter = iter;
        ch
    };
    let alpha = mk(Some("alpha"), "z.rs:1", 0);
    let beta = mk(Some("beta"), "a.rs:1", 0);
    let plain_a = mk(None, "a.rs:1", 0);
    let plain_a2 = mk(None, "a.rs:1", 1);
    let plain_b = mk(None, "b.rs:1", 0);
    assert!(compare_channel_stats(&alpha, &beta));
    assert!(!compare_channel_stats(&beta, &alpha));
    assert!(compare_channel_stats(&beta, &plain_a));
    assert!(!compare_channel_stats(&plain_a, &beta));
    assert!(compare_channel_stats(&plain_a, &plain_a2));
    assert!(!compare_channel_stats(&plain_a2, &plain_a));
    assert!(compare_channel_stats(&plain_a2, &plain_b));
    assert!(compare_channel_stats(&plain_a, &plain_a));
}

#[test]
fn get_channel_stats_copies_records() {
    let mut store = StatsStore::new(50);
    store.apply_event(created(1, "a.rs:1", None, ChannelType::Bounded(3)));
    store.apply_event(sent(1, 9));
    let copy = store.get_channel_stats();
    assert_eq!(copy.len(), 1);
    assert_eq!(copy[0].id, 1);
    assert_eq!(copy[0].sent_count, 1);
    assert_eq!(copy[0].sent_logs.len(), 1);
    assert_eq!(copy[0].sent_logs[0].index, 1);
}

#[test]
fn clone_preserves_record() {
    let mut store = StatsStore::new(50);
    store.apply_event(created(1, "a.rs:1", Some("x"), ChannelType::Bounded(3)));
    store.apply_event(StatsEvent::MessageSent {
        id: 1,
        log: Some("m".to_string()),
        timestamp: 3,
    });
    let copy = store.get_channel_stats();
    let dup = copy[0].clone();
    assert_eq!(dup.id, copy[0].id);
    assert_eq!(dup.source, copy[0].source);
    assert_eq!(dup.label, copy[0].label);
    assert_eq!(dup.sent_logs, copy[0].sent_logs);
}

use channels_console::collector::StatsEvent;
use channels_console::forwarder::{
    OneshotForwarder, RecvForwarder, RecvFwdAction, RecvFwdEvent, SendForwarder, SendFwdAction,
    SendFwdEvent,
};

#[test]
fn send_forwarder_relays_messages() {
    let mut fwd = SendForwarder::new(5);
    let action = fwd.on_select(SendFwdEvent::OuterMsg(41));
    assert!(matches!(action, SendFwdAction::ForwardInner(41)));
    assert!(!fwd.done);
    let ev = fwd.on_inner_send_result(true, None, 99);
    match ev {
        Some(StatsEvent::MessageSent { id, log, timestamp }) => {
            assert_eq!(id, 5);
            assert_eq!(log, None);
            assert_eq!(timestamp, 99);
        }
        other => panic!("unexpected event: {:?}", other),
    }
    assert!(!fwd.done);
}

#[test]
fn send_forwarder_stops_on_eof_without_closing_outer() {
    let mut fwd = SendForwarder::new(5);
    let action = fwd.on_select::<u32>(SendFwdEvent::OuterClosed);
    assert!(matches!(action, SendFwdAction::Stop { close_outer: false }));
    assert!(fwd.done);
    assert!(matches!(fwd.exit_event(), StatsEvent::Closed { id: 5 }));
}

#[test]
fn send_forwarder_stops_on_close_signal_closing_outer() {
    let mut fwd = SendForwarder::new(5);
    let action = fwd.on_select::<u32>(SendFwdEvent::CloseSignal);
    assert!(matches!(action, SendFwdAction::Stop { close_outer: true }));
    assert!(fwd.done);
}

#[test]
fn send_forwarder_stops_when_inner_send_fails() {
    let mut fwd = SendForwarder::new(5);
    let _ = fwd.on_select(SendFwdEvent::OuterMsg(1));
    let ev = fwd.on_inner_send_result(false, None, 1);
    assert!(ev.is_none());
    assert!(fwd.done);
    assert!(matches!(fwd.exit_event(), StatsEvent::Closed { id: 5 }));
}

#[test]
fn recv_forwarder_relays_and_reports() {
    let mut fwd = RecvForwarder::new(8);
    let action = fwd.on_select(RecvFwdEvent::InnerMsg("m"));
    assert!(matches!(action, RecvFwdAction::ForwardOuter("m")));
    let (ev, signal) = fwd.on_outer_send_result(true, 7);
    assert!(matches!(ev, Some(StatsEvent::MessageReceived { id: 8, timestamp: 7 })));
    assert!(!signal);
    assert!(!fwd.done);
}

#[test]
fn recv_forwarder_signals_peer_when_outer_gone() {
    let mut fwd = RecvForwarder::new(8);
    let (ev, signal) = fwd.on_outer_send_result(false, 7);
    assert!(ev.is_none());
    assert!(signal);
    assert!(fwd.done);

    let mut fwd2 = RecvForwarder::new(9);
    let action = fwd2.on_select::<u32>(RecvFwdEvent::OuterReceiverClosed);
    assert!(matches!(action, RecvFwdAction::Stop { signal_peer: true }));
    assert!(fwd2.done);
}

#[test]
fn recv_forwarder_quiet_on_inner_eof() {
    let mut fwd = RecvForwarder::new(8);
    let action = fwd.on_select::<u32>(RecvFwdEvent::InnerClosed);
    assert!(matches!(action, RecvFwdAction::Stop { signal_peer: false }));
    assert!(matches!(fwd.exit_event(), StatsEvent::Closed { id: 8 }));
}

#[test]
fn oneshot_delivery_emits_sent_then_notified_and_no_closed() {
    let mut send_side = OneshotForwarder::new(3);
    let (first, second) = send_side.on_send_result(true, Some("1".to_string()), 11);
    assert!(matches!(first, Some(StatsEvent::MessageSent { id: 3, .. })));
    assert!(matches!(second, Some(StatsEvent::Notified { id: 3 })));
    assert!(send_side.delivered);
    assert!(send_side.exit_event().is_none());

    let mut recv_side = OneshotForwarder::new(3);
    let ev = recv_side.on_recv_result(true, 12);
    assert!(matches!(ev, Some(StatsEvent::MessageReceived { id: 3, timestamp: 12 })));
    assert!(recv_side.exit_event().is_none());
}

#[test]
fn oneshot_abort_emits_closed() {
    let mut send_side = OneshotForwarder::new(4);
    let (first, second) = send_side.on_send_result(false, None, 11);
    assert!(first.is_none());
    assert!(second.is_none());
    assert!(!send_side.delivered);
    assert!(matches!(send_side.exit_event(), Some(StatsEvent::Closed { id: 4 })));

    let recv_side = OneshotForwarder::new(4);
    assert!(matches!(recv_side.exit_event(), Some(StatsEvent::Closed { id: 4 })));
}

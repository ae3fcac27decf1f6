use channels_console::stats::{ChannelState, ChannelType};

#[test]
fn type_display_forms() {
    assert_eq!(ChannelType::Bounded(10).to_display_string(), "bounded[10]");
    assert_eq!(ChannelType::Unbounded.to_display_string(), "unbounded");
    assert_eq!(ChannelType::Oneshot.to_display_string(), "oneshot");
}

#[test]
fn type_serialization_round_trip() {
    for t in [ChannelType::Bounded(10), ChannelType::Unbounded, ChannelType::Oneshot] {
        let s = t.to_display_string();
        assert_eq!(ChannelType::parse(s.as_str()), Some(t));
    }
}

#[test]
fn type_parse_bounded_sizes() {
    assert_eq!(ChannelType::parse("bounded[0]"), Some(ChannelType::Bounded(0)));
    assert_eq!(ChannelType::parse("bounded[123456]"), Some(ChannelType::Bounded(123456)));
}

#[test]
fn type_parse_rejects_malformed() {
    assert_eq!(ChannelType::parse(""), None);
    assert_eq!(ChannelType::parse("bounded"), None);
    assert_eq!(ChannelType::parse("bounded["), None);
    assert_eq!(ChannelType::parse("bounded[]"), None);
    assert_eq!(ChannelType::parse("bounded[x]"), None);
    assert_eq!(ChannelType::parse("bounded[10"), None);
    assert_eq!(ChannelType::parse("bounded[10]x"), None);
    assert_eq!(ChannelType::parse("Unbounded"), None);
    assert_eq!(ChannelType::parse("one-shot"), None);
}

#[test]
fn state_serialization_round_trip() {
    for st in [
        ChannelState::Active,
        ChannelState::Closed,
        ChannelState::Full,
        ChannelState::Notified,
    ] {
        assert_eq!(ChannelState::parse(st.as_str()), Some(st));
    }
}

#[test]
fn state_parse_rejects_unknown() {
    assert_eq!(ChannelState::parse(""), None);
    assert_eq!(ChannelState::parse("Active"), None);
    assert_eq!(ChannelState::parse("open"), None);
}

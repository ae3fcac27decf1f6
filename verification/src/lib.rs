//! Channel observability core: event types, per-channel statistics with
//! bounded logs, a collector that folds an event stream into a stats store,
//! the forwarder protocol behind instrumented channels, label resolution,
//! and the read-only metrics surface.

pub mod codec;
pub mod collector;
pub mod config;
pub mod forwarder;
pub mod http;
pub mod label;
pub mod laws;
pub mod numerals;
pub mod proxy_model;
pub mod snapshot;
pub mod stats;

pub use collector::{StatsEvent, StatsStore};
pub use http::Route;
pub use label::{extract_filename, format_bytes, resolve_label, truncate_left};
pub use snapshot::{ChannelLogs, SerializableChannelStats};
pub use stats::{ChannelState, ChannelStats, ChannelType, Format, LogEntry};

use vstd::prelude::*;

verus! {

/// Instrumenting a channel pair: wrap both ends with proxy endpoints of
/// the same shape, register the channel under `source` (and the optional
/// user label), and hand the outer ends back. `capacity` is for primitives
/// that do not expose their capacity after construction. The runtime that
/// owns the concrete channel types implements this for each supported
/// pair.
pub trait Instrument {
    type Output;

    fn instrument(
        self,
        source: &'static str,
        label: Option<&'static str>,
        capacity: Option<usize>,
    ) -> Self::Output;
}

/// Like `Instrument`, but the proxy additionally captures a string
/// rendering of every message sent, for the per-channel logs.
pub trait InstrumentLog {
    type Output;

    fn instrument_log(
        self,
        source: &'static str,
        label: Option<&'static str>,
        capacity: Option<usize>,
    ) -> Self::Output;
}

} // verus!

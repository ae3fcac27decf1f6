//! Core data model: channel kinds, channel states, log entries, and the
//! per-channel statistics record with its derived quantities.

use std::collections::VecDeque;
use vstd::prelude::*;

verus! {

/// Kind of an instrumented channel.
#[derive(Debug, Clone, Copy, PartialEq, Eq, Structural)]
pub enum ChannelType {
    Bounded(usize),
    Unbounded,
    Oneshot,
}

/// Format of the snapshot rendering requested at process teardown.
#[derive(Clone, Copy, Debug)]
pub enum Format {
    Table,
    Json,
    JsonPretty,
}

impl Default for Format {
    fn default() -> (r: Self)
        ensures
            r is Table,
    {
        Format::Table
    }
}

/// State of an instrumented channel. `Closed` and `Notified` are terminal:
/// once reached, the collector never moves a channel out of them.
#[derive(Debug, Clone, Copy, PartialEq, Eq, Structural)]
pub enum ChannelState {
    Active,
    Closed,
    Full,
    Notified,
}

impl Default for ChannelState {
    fn default() -> (r: Self)
        ensures
            r is Active,
    {
        ChannelState::Active
    }
}

impl ChannelState {
    /// Lowercase identifier used in serialized snapshots.
    pub fn as_str(&self) -> (r: &'static str)
        ensures
            r@ == self.spec_str(),
    {
        match self {
            ChannelState::Active => "active",
            ChannelState::Closed => "closed",
            ChannelState::Full => "full",
            ChannelState::Notified => "notified",
        }
    }

    /// The serialized form of each state.
    pub open spec fn spec_str(self) -> Seq<char> {
        match self {
            ChannelState::Active => "active"@,
            ChannelState::Closed => "closed"@,
            ChannelState::Full => "full"@,
            ChannelState::Notified => "notified"@,
        }
    }

    /// True exactly for the two terminal states.
    pub open spec fn is_terminal(self) -> bool {
        self == ChannelState::Closed || self == ChannelState::Notified
    }
}

/// A single log entry for a message sent or received. `index` is the 1-based
/// sequence number on the sending or receiving side; `timestamp` is in
/// nanoseconds from the process-wide monotonic epoch.
#[derive(Debug, PartialEq)]
pub struct LogEntry {
    pub index: u64,
    pub timestamp: u64,
    pub message: Option<String>,
}

/// Mathematical image of a `LogEntry`.
#[verifier::ext_equal]
pub struct LogEntryV {
    pub index: u64,
    pub timestamp: u64,
    pub message: Option<Seq<char>>,
}

impl View for LogEntry {
    type V = LogEntryV;

    open spec fn view(&self) -> LogEntryV {
        LogEntryV {
            index: self.index,
            timestamp: self.timestamp,
            message: match self.message {
                Some(ref m) => Some(m@),
                None => None,
            },
        }
    }
}

impl LogEntry {
    /// The timestamp handed in is already relative to the collector's
    /// monotonic epoch.
    pub fn new(index: u64, timestamp: u64, message: Option<String>) -> (r: Self)
        ensures
            r.index == index,
            r.timestamp == timestamp,
            r@.message == match message {
                Some(m) => Some(m@),
                None => None::<Seq<char>>,
            },
    {
        LogEntry { index, timestamp, message }
    }
}

impl Clone for LogEntry {
    fn clone(&self) -> (r: Self)
        ensures
            r@ == self@,
    {
        LogEntry {
            index: self.index,
            timestamp: self.timestamp,
            message: match self.message {
                Some(ref m) => Some(m.clone()),
                None => None,
            },
        }
    }
}

/// The saturating increment used for the monotone counters.
pub open spec fn sat_inc(x: u64) -> u64 {
    if x == u64::MAX {
        u64::MAX
    } else {
        (x + 1) as u64
    }
}

/// The image of a log queue.
pub open spec fn logs_view(logs: Seq<LogEntry>) -> Seq<LogEntryV> {
    logs.map_values(|e: LogEntry| e@)
}

/// Statistics for a single instrumented channel.
#[derive(Debug)]
pub struct ChannelStats {
    pub id: u64,
    pub source: String,
    pub label: Option<String>,
    pub channel_type: ChannelType,
    pub state: ChannelState,
    pub sent_count: u64,
    pub received_count: u64,
    pub elem_type: String,
    pub type_size: usize,
    pub sent_logs: VecDeque<LogEntry>,
    pub received_logs: VecDeque<LogEntry>,
    pub iter: u32,
}

/// Mathematical image of a `ChannelStats` record.
#[verifier::ext_equal]
pub struct ChannelStatsV {
    pub id: u64,
    pub source: Seq<char>,
    pub label: Option<Seq<char>>,
    pub channel_type: ChannelType,
    pub state: ChannelState,
    pub sent_count: u64,
    pub received_count: u64,
    pub elem_type: Seq<char>,
    pub type_size: usize,
    pub sent_logs: Seq<LogEntryV>,
    pub received_logs: Seq<LogEntryV>,
    pub iter: u32,
}

impl View for ChannelStats {
    type V = ChannelStatsV;

    open spec fn view(&self) -> ChannelStatsV {
        ChannelStatsV {
            id: self.id,
            source: self.source@,
            label: match self.label {
                Some(ref l) => Some(l@),
                None => None,
            },
            channel_type: self.channel_type,
            state: self.state,
            sent_count: self.sent_count,
            received_count: self.received_count,
            elem_type: self.elem_type@,
            type_size: self.type_size,
            sent_logs: logs_view(self.sent_logs@),
            received_logs: logs_view(self.received_logs@),
            iter: self.iter,
        }
    }
}

impl ChannelStatsV {
    /// Number of messages the proxy reports as queued: the difference of the
    /// counters, minus one for the forwarder's in-hand message, clamped at 0.
    pub open spec fn spec_queued(self) -> u64 {
        if self.sent_count >= self.received_count + 1 + 1 {
            (self.sent_count - self.received_count - 1) as u64
        } else {
            0u64
        }
    }

    /// The state recomputation applied after a counter update: terminal
    /// states stick; otherwise the channel is `Full` exactly when the queue
    /// reaches the capacity of its kind.
    pub open spec fn spec_next_state(self) -> ChannelState {
        if self.state.is_terminal() {
            self.state
        } else if match self.channel_type {
            ChannelType::Bounded(cap) => self.spec_queued() >= cap as u64,
            ChannelType::Oneshot => self.spec_queued() >= 1,
            ChannelType::Unbounded => false,
        } {
            ChannelState::Full
        } else {
            ChannelState::Active
        }
    }
}

impl Clone for ChannelStats {
    fn clone(&self) -> (r: Self)
        ensures
            r@ == self@,
    {
        let r = ChannelStats {
            id: self.id,
            source: self.source.clone(),
            label: match self.label {
                Some(ref l) => Some(l.clone()),
                None => None,
            },
            channel_type: self.channel_type,
            state: self.state,
            sent_count: self.sent_count,
            received_count: self.received_count,
            elem_type: self.elem_type.clone(),
            type_size: self.type_size,
            sent_logs: clone_logs(&self.sent_logs),
            received_logs: clone_logs(&self.received_logs),
            iter: self.iter,
        };
        proof {
            assert(r@.label == self@.label);
            assert(r@ == self@);
        }
        r
    }
}

/// Element-wise clone of a log queue; the views agree.
fn clone_logs(logs: &VecDeque<LogEntry>) -> (r: VecDeque<LogEntry>)
    ensures
        logs_view(r@) == logs_view(logs@),
        r@.len() == logs@.len(),
{
    let mut r: VecDeque<LogEntry> = VecDeque::new();
    let mut i: usize = 0;
    while i < logs.len()
        invariant
            i <= logs@.len(),
            r@.len() == i,
            forall|j: int| 0 <= j < i ==> r@[j]@ == logs@[j]@,
        decreases logs@.len() - i,
    {
        r.push_back(logs[i].clone());
        i = i + 1;
    }
    proof {
        assert(logs_view(r@) =~= logs_view(logs@));
    }
    r
}

impl ChannelStats {
    pub fn new(
        id: u64,
        source: String,
        label: Option<String>,
        channel_type: ChannelType,
        elem_type: String,
        type_size: usize,
        iter: u32,
    ) -> (r: Self)
        ensures
            r@ == (ChannelStatsV {
                id,
                source: source@,
                label: match label {
                    Some(l) => Some(l@),
                    None => None::<Seq<char>>,
                },
                channel_type,
                state: ChannelState::Active,
                sent_count: 0,
                received_count: 0,
                elem_type: elem_type@,
                type_size,
                sent_logs: Seq::<LogEntryV>::empty(),
                received_logs: Seq::<LogEntryV>::empty(),
                iter,
            }),
    {
        let r = ChannelStats {
            id,
            source,
            label,
            channel_type,
            state: ChannelState::Active,
            sent_count: 0,
            received_count: 0,
            elem_type,
            type_size,
            sent_logs: VecDeque::new(),
            received_logs: VecDeque::new(),
            iter,
        };
        proof {
            assert(logs_view(r.sent_logs@) =~= Seq::<LogEntryV>::empty());
            assert(logs_view(r.received_logs@) =~= Seq::<LogEntryV>::empty());
        }
        r
    }

    /// Derived queue occupancy (saturating; see `spec_queued`).
    pub fn queued(&self) -> (r: u64)
        ensures
            r == self@.spec_queued(),
    {
        let diff = if self.sent_count >= self.received_count {
            self.sent_count - self.received_count
        } else {
            0
        };
        if diff >= 1 {
            diff - 1
        } else {
            0
        }
    }

    /// Total bytes that crossed the channel: one element size per send.
    pub fn total_bytes(&self) -> (r: u64)
        requires
            self.sent_count * self.type_size <= u64::MAX,
        ensures
            r == self.sent_count * self.type_size,
    {
        self.sent_count * (self.type_size as u64)
    }

    /// Bytes held by queued messages.
    pub fn queued_bytes(&self) -> (r: u64)
        requires
            self@.spec_queued() * self.type_size <= u64::MAX,
        ensures
            r == self@.spec_queued() * self.type_size,
    {
        self.queued() * (self.type_size as u64)
    }

    /// Recompute the state after a counter change (see `spec_next_state`).
    pub fn update_state(&mut self)
        ensures
            final(self)@ == (ChannelStatsV { state: old(self)@.spec_next_state(), ..old(self)@ }),
    {
        if self.state == ChannelState::Closed || self.state == ChannelState::Notified {
            return;
        }

        let queued = self.queued();
        let is_full = match self.channel_type {
            ChannelType::Bounded(cap) => queued >= cap as u64,
            ChannelType::Oneshot => queued >= 1,
            ChannelType::Unbounded => false,
        };

        if is_full {
            self.state = ChannelState::Full;
        } else {
            self.state = ChannelState::Active;
        }
    }
}

} // verus!

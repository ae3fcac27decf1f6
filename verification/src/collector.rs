//! The event stream and the collector that folds it into the stats store.
//!
//! `StatsStore::apply_event` is the single writer's step; its whole effect is
//! the spec function `spec_apply_event`, so properties of event traces can be
//! proved once over the spec and carried to the executable collector.

use crate::stats::{
    ChannelState, ChannelStats, ChannelStatsV, ChannelType, LogEntry, LogEntryV,
};
use vstd::prelude::*;

verus! {

/// Events sent by the proxy forwarders to the collector. String-valued
/// fields are plain values; timestamps are nanoseconds from the collector's
/// monotonic epoch.
#[derive(Debug)]
pub enum StatsEvent {
    Created {
        id: u64,
        source: String,
        display_label: Option<String>,
        channel_type: ChannelType,
        elem_type: String,
        type_size: usize,
    },
    MessageSent { id: u64, log: Option<String>, timestamp: u64 },
    MessageReceived { id: u64, timestamp: u64 },
    Closed { id: u64 },
    Notified { id: u64 },
}

/// Mathematical image of a `StatsEvent`.
#[verifier::ext_equal]
pub enum StatsEventV {
    Created {
        id: u64,
        source: Seq<char>,
        display_label: Option<Seq<char>>,
        channel_type: ChannelType,
        elem_type: Seq<char>,
        type_size: usize,
    },
    MessageSent { id: u64, log: Option<Seq<char>>, timestamp: u64 },
    MessageReceived { id: u64, timestamp: u64 },
    Closed { id: u64 },
    Notified { id: u64 },
}

impl View for StatsEvent {
    type V = StatsEventV;

    open spec fn view(&self) -> StatsEventV {
        match *self {
            StatsEvent::Created {
                id, ref source, ref display_label, channel_type, ref elem_type, type_size,
            } => StatsEventV::Created {
                id,
                source: source@,
                display_label: match *display_label {
                    Some(ref l) => Some(l@),
                    None => None,
                },
                channel_type,
                elem_type: elem_type@,
                type_size,
            },
            StatsEvent::MessageSent { id, ref log, timestamp } => StatsEventV::MessageSent {
                id,
                log: match *log {
                    Some(ref l) => Some(l@),
                    None => None,
                },
                timestamp,
            },
            StatsEvent::MessageReceived { id, timestamp } => StatsEventV::MessageReceived {
                id,
                timestamp,
            },
            StatsEvent::Closed { id } => StatsEventV::Closed { id },
            StatsEvent::Notified { id } => StatsEventV::Notified { id },
        }
    }
}


impl StatsEventV {
    /// The channel the event is about.
    pub open spec fn event_id(self) -> u64 {
        match self {
            StatsEventV::Created { id, .. } => id,
            StatsEventV::MessageSent { id, .. } => id,
            StatsEventV::MessageReceived { id, .. } => id,
            StatsEventV::Closed { id } => id,
            StatsEventV::Notified { id } => id,
        }
    }

    /// The source of a `Created` event (empty for the others).
    pub open spec fn created_source(self) -> Seq<char> {
        match self {
            StatsEventV::Created { source, .. } => source,
            _ => Seq::empty(),
        }
    }

    /// The user label of a `Created` event (`None` for the others).
    pub open spec fn created_label(self) -> Option<Seq<char>> {
        match self {
            StatsEventV::Created { display_label, .. } => display_label,
            _ => None,
        }
    }
}

/// The store owned by the collector: one record per instrumented channel,
/// and the log cap applied to every record.
#[derive(Debug)]
pub struct StatsStore {
    pub channels: Vec<ChannelStats>,
    pub log_limit: usize,
}

/// Mathematical image of the store.
#[verifier::ext_equal]
pub struct StatsStoreV {
    pub channels: Seq<ChannelStatsV>,
    pub log_limit: usize,
}

impl View for StatsStore {
    type V = StatsStoreV;

    open spec fn view(&self) -> StatsStoreV {
        StatsStoreV {
            channels: self.channels@.map_values(|c: ChannelStats| c@),
            log_limit: self.log_limit,
        }
    }
}

/// Index of the first record with the given id, if any.
pub open spec fn find_id(chs: Seq<ChannelStatsV>, id: u64) -> Option<int>
    decreases chs.len(),
{
    if chs.len() == 0 {
        None
    } else if chs[0].id == id {
        Some(0int)
    } else {
        match find_id(chs.drop_first(), id) {
            Some(i) => Some(i + 1),
            None => None,
        }
    }
}

/// Number of records whose creation site is `src`.
pub open spec fn count_source(chs: Seq<ChannelStatsV>, src: Seq<char>) -> nat
    decreases chs.len(),
{
    if chs.len() == 0 {
        0
    } else {
        count_source(chs.drop_last(), src) + if chs.last().source == src {
            1nat
        } else {
            0nat
        }
    }
}

/// The state the store reports for an id, if the id is known.
pub open spec fn state_of(s: StatsStoreV, id: u64) -> Option<ChannelState> {
    match find_id(s.channels, id) {
        Some(i) => Some(s.channels[i].state),
        None => None,
    }
}

/// A bounded log queue after appending `entry`: the front entry is evicted
/// first whenever the queue has reached the cap.
pub open spec fn push_log(logs: Seq<LogEntryV>, entry: LogEntryV, limit: usize) -> Seq<LogEntryV> {
    let trimmed = if logs.len() >= limit && logs.len() > 0 {
        logs.drop_first()
    } else {
        logs
    };
    trimmed.push(entry)
}

/// Effect of a `MessageSent` event on one record. At a saturated counter the
/// event is ignored, which keeps handling total.
pub open spec fn apply_sent(
    ch: ChannelStatsV,
    log: Option<Seq<char>>,
    ts: u64,
    limit: usize,
) -> ChannelStatsV {
    if ch.sent_count == u64::MAX {
        ch
    } else {
        let bumped = ChannelStatsV { sent_count: (ch.sent_count + 1) as u64, ..ch };
        let restated = ChannelStatsV { state: bumped.spec_next_state(), ..bumped };
        ChannelStatsV {
            sent_logs: push_log(
                restated.sent_logs,
                LogEntryV { index: restated.sent_count, timestamp: ts, message: log },
                limit,
            ),
            ..restated
        }
    }
}

/// Effect of a `MessageReceived` event on one record.
pub open spec fn apply_received(ch: ChannelStatsV, ts: u64, limit: usize) -> ChannelStatsV {
    if ch.received_count == u64::MAX {
        ch
    } else {
        let bumped = ChannelStatsV { received_count: (ch.received_count + 1) as u64, ..ch };
        let restated = ChannelStatsV { state: bumped.spec_next_state(), ..bumped };
        ChannelStatsV {
            received_logs: push_log(
                restated.received_logs,
                LogEntryV { index: restated.received_count, timestamp: ts, message: None },
                limit,
            ),
            ..restated
        }
    }
}

/// Effect of a `Closed` event: terminal states stick.
pub open spec fn apply_closed(ch: ChannelStatsV) -> ChannelStatsV {
    if ch.state.is_terminal() {
        ch
    } else {
        ChannelStatsV { state: ChannelState::Closed, ..ch }
    }
}

/// Effect of a `Notified` event: terminal states stick.
pub open spec fn apply_notified(ch: ChannelStatsV) -> ChannelStatsV {
    if ch.state.is_terminal() {
        ch
    } else {
        ChannelStatsV { state: ChannelState::Notified, ..ch }
    }
}

/// The record a `Created` event installs.
pub open spec fn created_record(
    id: u64,
    source: Seq<char>,
    display_label: Option<Seq<char>>,
    channel_type: ChannelType,
    elem_type: Seq<char>,
    type_size: usize,
    iter: u32,
) -> ChannelStatsV {
    ChannelStatsV {
        id,
        source,
        label: display_label,
        channel_type,
        state: ChannelState::Active,
        sent_count: 0,
        received_count: 0,
        elem_type,
        type_size,
        sent_logs: Seq::empty(),
        received_logs: Seq::empty(),
        iter,
    }
}

/// The `iter` ordinal assigned at creation: the number of pre-existing
/// records with the same source, clamped into `u32`.
pub open spec fn iter_of_count(count: nat) -> u32 {
    if count >= u32::MAX {
        u32::MAX
    } else {
        count as u32
    }
}

/// The collector's whole step: what one event does to the store. Events for
/// unknown ids are dropped; a `Created` event whose id already exists
/// replaces that record in place.
pub open spec fn spec_apply_event(pre: StatsStoreV, ev: StatsEventV) -> StatsStoreV {
    match ev {
        StatsEventV::Created { id, source, display_label, channel_type, elem_type, type_size } => {
            let iter = iter_of_count(count_source(pre.channels, source));
            let rec = created_record(
                id, source, display_label, channel_type, elem_type, type_size, iter,
            );
            let channels = match find_id(pre.channels, id) {
                Some(i) => pre.channels.update(i, rec),
                None => pre.channels.push(rec),
            };
            StatsStoreV { channels, ..pre }
        },
        StatsEventV::MessageSent { id, log, timestamp } => match find_id(pre.channels, id) {
            Some(i) => StatsStoreV {
                channels: pre.channels.update(
                    i,
                    apply_sent(pre.channels[i], log, timestamp, pre.log_limit),
                ),
                ..pre
            },
            None => pre,
        },
        StatsEventV::MessageReceived { id, timestamp } => match find_id(pre.channels, id) {
            Some(i) => StatsStoreV {
                channels: pre.channels.update(
                    i,
                    apply_received(pre.channels[i], timestamp, pre.log_limit),
                ),
                ..pre
            },
            None => pre,
        },
        StatsEventV::Closed { id } => match find_id(pre.channels, id) {
            Some(i) => StatsStoreV {
                channels: pre.channels.update(i, apply_closed(pre.channels[i])),
                ..pre
            },
            None => pre,
        },
        StatsEventV::Notified { id } => match find_id(pre.channels, id) {
            Some(i) => StatsStoreV {
                channels: pre.channels.update(i, apply_notified(pre.channels[i])),
                ..pre
            },
            None => pre,
        },
    }
}

/// First index holding `id`, with the first-match property made explicit.
pub proof fn lemma_find_id_props(chs: Seq<ChannelStatsV>, id: u64)
    ensures
        match find_id(chs, id) {
            Some(i) => 0 <= i < chs.len() && chs[i].id == id && forall|j: int|
                0 <= j < i ==> chs[j].id != id,
            None => forall|j: int| 0 <= j < chs.len() ==> chs[j].id != id,
        },
    decreases chs.len(),
{
    if chs.len() > 0 && chs[0].id != id {
        lemma_find_id_props(chs.drop_first(), id);
        match find_id(chs.drop_first(), id) {
            Some(i) => {
                assert(chs.drop_first()[i] == chs[i + 1]);
                assert forall|j: int| 0 <= j < i + 1 implies chs[j].id != id by {
                    if j > 0 {
                        assert(chs.drop_first()[j - 1] == chs[j]);
                    }
                }
            },
            None => {
                assert forall|j: int| 0 <= j < chs.len() implies chs[j].id != id by {
                    if j > 0 {
                        assert(chs.drop_first()[j - 1] == chs[j]);
                    }
                }
            },
        }
    }
}

impl StatsStore {
    /// An empty store with the given per-channel log cap.
    pub fn new(log_limit: usize) -> (r: Self)
        ensures
            r@.channels == Seq::<ChannelStatsV>::empty(),
            r@.log_limit == log_limit,
    {
        let r = StatsStore { channels: Vec::new(), log_limit };
        proof {
            assert(r@.channels =~= Seq::<ChannelStatsV>::empty());
        }
        r
    }

    /// Index of the record with the given id, if any.
    pub(crate) fn find_index(&self, id: u64) -> (r: Option<usize>)
        ensures
            match r {
                Some(i) => i < self@.channels.len() && self@.channels[i as int].id == id
                    && find_id(self@.channels, id) == Some(i as int),
                None => find_id(self@.channels, id) is None,
            },
    {
        let ghost chs = self@.channels;
        proof {
            lemma_find_id_props(chs, id);
        }
        let mut i: usize = 0;
        while i < self.channels.len()
            invariant
                chs == self@.channels,
                chs.len() == self.channels@.len(),
                i <= chs.len(),
                forall|j: int| 0 <= j < i ==> chs[j].id != id,
                match find_id(chs, id) {
                    Some(k) => 0 <= k < chs.len() && chs[k].id == id && forall|j: int|
                        0 <= j < k ==> chs[j].id != id,
                    None => forall|j: int| 0 <= j < chs.len() ==> chs[j].id != id,
                },
            decreases chs.len() - i,
        {
            if self.channels[i].id == id {
                proof {
                    if let Some(k) = find_id(chs, id) {
                        assert(k == i) by {
                            if k < i {
                                assert(chs[k].id != id);
                            }
                        }
                    } else {
                        assert(chs[i as int].id != id);
                    }
                }
                return Some(i);
            }
            i = i + 1;
        }
        None
    }

    /// Number of records created at `src`.
    fn count_source_exec(&self, src: &String) -> (r: usize)
        ensures
            r == count_source(self@.channels, src@),
    {
        let ghost chs = self@.channels;
        let mut count: usize = 0;
        let mut i: usize = 0;
        while i < self.channels.len()
            invariant
                chs == self@.channels,
                chs.len() == self.channels@.len(),
                i <= chs.len(),
                count == count_source(chs.take(i as int), src@),
                count <= i,
            decreases chs.len() - i,
        {
            proof {
                assert(chs.take(i + 1).drop_last() =~= chs.take(i as int));
                assert(chs.take(i + 1).last() == chs[i as int]);
            }
            if crate::label::str_eq(self.channels[i].source.as_str(), src.as_str()) {
                count = count + 1;
            }
            i = i + 1;
        }
        proof {
            assert(chs.take(chs.len() as int) =~= chs);
        }
        count
    }

    /// The collector's single step: fold one event into the store.
    pub fn apply_event(&mut self, ev: StatsEvent)
        ensures
            final(self)@ == spec_apply_event(old(self)@, ev@),
    {
        let ghost pre = self@;
        let ghost gev = ev@;
        match ev {
            StatsEvent::Created { id, source, display_label, channel_type, elem_type, type_size } => {
                let count = self.count_source_exec(&source);
                let iter = if count >= u32::MAX as usize {
                    u32::MAX
                } else {
                    count as u32
                };
                proof {
                    assert(iter == iter_of_count(count_source(pre.channels, source@)));
                }
                let rec = ChannelStats::new(
                    id, source, display_label, channel_type, elem_type, type_size, iter,
                );
                let ghost grec = rec@;
                match self.find_index(id) {
                    Some(i) => {
                        self.channels.set(i, rec);
                        proof {
                            assert(self@.channels =~~= pre.channels.update(i as int, grec));
                            assert(self@ =~~= spec_apply_event(pre, gev));
                        }
                    },
                    None => {
                        self.channels.push(rec);
                        proof {
                            assert(self@.channels =~~= pre.channels.push(grec));
                            assert(self@ =~~= spec_apply_event(pre, gev));
                        }
                    },
                }
            },
            StatsEvent::MessageSent { id, log, timestamp } => {
                if let Some(i) = self.find_index(id) {
                    let ghost glog = match log { Some(ref l) => Some(l@), None => None };
                    let ghost target = apply_sent(pre.channels[i as int], glog, timestamp, pre.log_limit);
                    let mut ch = self.channels.remove(i);
                    proof {
                        assert(ch@ == pre.channels[i as int]);
                    }
                    if ch.sent_count < u64::MAX {
                        ch.sent_count = ch.sent_count + 1;
                        ch.update_state();
                        if ch.sent_logs.len() >= self.log_limit {
                            let _ = ch.sent_logs.pop_front();
                        }
                        ch.sent_logs.push_back(LogEntry::new(ch.sent_count, timestamp, log));
                    }
                    proof {
                        assert(ch@ =~~= target);
                    }
                    self.channels.insert(i, ch);
                    proof {
                        assert(self@.channels =~~= pre.channels.update(i as int, target));
                        assert(self@ =~~= spec_apply_event(pre, gev));
                    }
                }
            },
            StatsEvent::MessageReceived { id, timestamp } => {
                if let Some(i) = self.find_index(id) {
                    let ghost target = apply_received(pre.channels[i as int], timestamp, pre.log_limit);
                    let mut ch = self.channels.remove(i);
                    proof {
                        assert(ch@ == pre.channels[i as int]);
                    }
                    if ch.received_count < u64::MAX {
                        ch.received_count = ch.received_count + 1;
                        ch.update_state();
                        if ch.received_logs.len() >= self.log_limit {
                            let _ = ch.received_logs.pop_front();
                        }
                        ch.received_logs.push_back(
                            LogEntry::new(ch.received_count, timestamp, None),
                        );
                    }
                    proof {
                        assert(ch@ =~~= target);
                    }
                    self.channels.insert(i, ch);
                    proof {
                        assert(self@.channels =~~= pre.channels.update(i as int, target));
                        assert(self@ =~~= spec_apply_event(pre, gev));
                    }
                }
            },
            StatsEvent::Closed { id } => {
                if let Some(i) = self.find_index(id) {
                    let mut ch = self.channels.remove(i);
                    proof {
                        assert(ch@ == pre.channels[i as int]);
                    }
                    if !(ch.state == ChannelState::Closed || ch.state == ChannelState::Notified) {
                        ch.state = ChannelState::Closed;
                    }
                    proof {
                        assert(ch@ =~~= apply_closed(pre.channels[i as int]));
                    }
                    self.channels.insert(i, ch);
                    proof {
                        assert(self@.channels =~~= pre.channels.update(
                            i as int,
                            apply_closed(pre.channels[i as int]),
                        ));
                        assert(self@ =~~= spec_apply_event(pre, gev));
                    }
                }
            },
            StatsEvent::Notified { id } => {
                if let Some(i) = self.find_index(id) {
                    let mut ch = self.channels.remove(i);
                    proof {
                        assert(ch@ == pre.channels[i as int]);
                    }
                    if !(ch.state == ChannelState::Closed || ch.state == ChannelState::Notified) {
                        ch.state = ChannelState::Notified;
                    }
                    proof {
                        assert(ch@ =~~= apply_notified(pre.channels[i as int]));
                    }
                    self.channels.insert(i, ch);
                    proof {
                        assert(self@.channels =~~= pre.channels.update(
                            i as int,
                            apply_notified(pre.channels[i as int]),
                        ));
                        assert(self@ =~~= spec_apply_event(pre, gev));
                    }
                }
            },
        }
    }
}

} // verus!

//! The store's invariants, proved against the collector's step function:
//! log queues stay bounded with consecutive indices, counters never move
//! backwards, terminal states stick across whole event traces, and the
//! `iter` ordinals give every channel of one source a distinct label.

use crate::collector::{
    count_source, find_id, push_log, spec_apply_event, state_of, StatsEventV, StatsStoreV,
};
use crate::label::spec_resolve_label;
use crate::numerals::{lemma_dec_digits, lemma_dec_injective, spec_dec};
use crate::stats::{ChannelStatsV, LogEntryV};
use vstd::prelude::*;

verus! {

/// The effective log cap: the configured limit, except that a limit of 0
/// still leaves room for the single entry each append installs.
pub open spec fn effective_cap(limit: usize) -> nat {
    if limit >= 1 {
        limit as nat
    } else {
        1nat
    }
}

/// The shape of a log queue with `count` messages recorded so far: it holds
/// the most recent indices, consecutively, ending at `count`.
pub open spec fn log_indices_ok(logs: Seq<LogEntryV>, count: u64) -> bool {
    &&& logs.len() <= count
    &&& forall|j: int| 0 <= j < logs.len() ==> (#[trigger] logs[j].index) == count - logs.len() + j
        + 1
}

/// Well-formedness of one record.
pub open spec fn ch_wf(ch: ChannelStatsV, limit: usize) -> bool {
    &&& ch.sent_logs.len() <= effective_cap(limit)
    &&& ch.received_logs.len() <= effective_cap(limit)
    &&& log_indices_ok(ch.sent_logs, ch.sent_count)
    &&& log_indices_ok(ch.received_logs, ch.received_count)
}

/// Well-formedness of the store: ids are unique and every record is
/// well-formed.
pub open spec fn store_wf(s: StatsStoreV) -> bool {
    &&& forall|i: int, j: int| 0 <= i < j < s.channels.len() ==> (#[trigger] s.channels[i].id)
        != (#[trigger] s.channels[j].id)
    &&& forall|i: int| 0 <= i < s.channels.len() ==> ch_wf(#[trigger] s.channels[i], s.log_limit)
}

/// Appending the next entry keeps a log queue well-shaped.
proof fn lemma_push_log_wf(
    logs: Seq<LogEntryV>,
    count: u64,
    ts: u64,
    msg: Option<Seq<char>>,
    limit: usize,
)
    requires
        logs.len() <= effective_cap(limit),
        log_indices_ok(logs, count),
        count < u64::MAX,
    ensures
        ({
            let entry = LogEntryV { index: (count + 1) as u64, timestamp: ts, message: msg };
            let out = push_log(logs, entry, limit);
            out.len() <= effective_cap(limit) && log_indices_ok(out, (count + 1) as u64)
        }),
{
    let entry = LogEntryV { index: (count + 1) as u64, timestamp: ts, message: msg };
    let out = push_log(logs, entry, limit);
    if logs.len() >= limit && logs.len() > 0 {
        assert(out =~= logs.drop_first().push(entry));
        assert forall|j: int| 0 <= j < out.len() implies (#[trigger] out[j].index) == (count + 1)
            - out.len() + j + 1 by {
            if j < out.len() - 1 {
                assert(out[j] == logs[j + 1]);
            }
        }
    } else {
        assert(out =~= logs.push(entry));
        assert forall|j: int| 0 <= j < out.len() implies (#[trigger] out[j].index) == (count + 1)
            - out.len() + j + 1 by {
            if j < out.len() - 1 {
                assert(out[j] == logs[j]);
            }
        }
    }
}

/// A `MessageSent` step keeps a record well-formed.
proof fn lemma_apply_sent_wf(ch: ChannelStatsV, log: Option<Seq<char>>, ts: u64, limit: usize)
    requires
        ch_wf(ch, limit),
    ensures
        ch_wf(crate::collector::apply_sent(ch, log, ts, limit), limit),
        crate::collector::apply_sent(ch, log, ts, limit).id == ch.id,
{
    if ch.sent_count != u64::MAX {
        lemma_push_log_wf(ch.sent_logs, ch.sent_count, ts, log, limit);
    }
}

/// A `MessageReceived` step keeps a record well-formed.
proof fn lemma_apply_received_wf(ch: ChannelStatsV, ts: u64, limit: usize)
    requires
        ch_wf(ch, limit),
    ensures
        ch_wf(crate::collector::apply_received(ch, ts, limit), limit),
        crate::collector::apply_received(ch, ts, limit).id == ch.id,
{
    if ch.received_count != u64::MAX {
        lemma_push_log_wf(ch.received_logs, ch.received_count, ts, None, limit);
    }
}

/// Two stores with the same ids in the same positions agree on `find_id`.
proof fn lemma_find_id_same_ids(a: Seq<ChannelStatsV>, b: Seq<ChannelStatsV>, id: u64)
    requires
        a.len() == b.len(),
        forall|i: int| 0 <= i < a.len() ==> (#[trigger] a[i].id) == b[i].id,
    ensures
        find_id(a, id) == find_id(b, id),
    decreases a.len(),
{
    if a.len() > 0 {
        assert(a[0].id == b[0].id);
        assert forall|i: int| 0 <= i < a.drop_first().len() implies (#[trigger] a.drop_first()[i].id)
            == b.drop_first()[i].id by {
            assert(a.drop_first()[i] == a[i + 1]);
            assert(b.drop_first()[i] == b[i + 1]);
            assert(a[i + 1].id == b[i + 1].id);
        }
        lemma_find_id_same_ids(a.drop_first(), b.drop_first(), id);
    }
}

/// Appending a record does not change where an already-present id is found.
proof fn lemma_find_id_push(chs: Seq<ChannelStatsV>, rec: ChannelStatsV, id: u64)
    requires
        find_id(chs, id) is Some,
    ensures
        find_id(chs.push(rec), id) == find_id(chs, id),
    decreases chs.len(),
{
    if chs.len() > 0 && chs[0].id != id {
        assert(chs.push(rec)[0] == chs[0]);
        assert(chs.push(rec).drop_first() =~= chs.drop_first().push(rec));
        lemma_find_id_push(chs.drop_first(), rec, id);
    } else {
        assert(chs.push(rec)[0] == chs[0]);
    }
}

/// The collector's step keeps the store well-formed.
pub proof fn lemma_apply_event_preserves_wf(pre: StatsStoreV, ev: StatsEventV)
    requires
        store_wf(pre),
    ensures
        store_wf(spec_apply_event(pre, ev)),
{
    let post = spec_apply_event(pre, ev);
    crate::collector::lemma_find_id_props(pre.channels, ev.event_id());
    match ev {
        StatsEventV::Created { id, source, display_label, channel_type, elem_type, type_size } => {
            match find_id(pre.channels, id) {
                Some(i) => {
                    assert forall|a: int| 0 <= a < post.channels.len() implies ch_wf(
                        #[trigger] post.channels[a],
                        post.log_limit,
                    ) by {
                        if a != i {
                            assert(post.channels[a] == pre.channels[a]);
                        }
                    }
                },
                None => {
                    assert forall|a: int, b: int|
                        0 <= a < b < post.channels.len() implies (#[trigger] post.channels[a].id)
                        != (#[trigger] post.channels[b].id) by {
                        if b < post.channels.len() - 1 {
                            assert(post.channels[a] == pre.channels[a]);
                            assert(post.channels[b] == pre.channels[b]);
                        } else {
                            assert(post.channels[a] == pre.channels[a]);
                            assert(pre.channels[a].id != id);
                        }
                    }
                    assert forall|a: int| 0 <= a < post.channels.len() implies ch_wf(
                        #[trigger] post.channels[a],
                        post.log_limit,
                    ) by {
                        if a < post.channels.len() - 1 {
                            assert(post.channels[a] == pre.channels[a]);
                        }
                    }
                },
            }
        },
        StatsEventV::MessageSent { id, log, timestamp } => {
            if let Some(i) = find_id(pre.channels, id) {
                lemma_apply_sent_wf(pre.channels[i], log, timestamp, pre.log_limit);
                assert forall|a: int| 0 <= a < post.channels.len() implies ch_wf(
                    #[trigger] post.channels[a],
                    post.log_limit,
                ) by {
                    if a != i {
                        assert(post.channels[a] == pre.channels[a]);
                    }
                }
            }
        },
        StatsEventV::MessageReceived { id, timestamp } => {
            if let Some(i) = find_id(pre.channels, id) {
                lemma_apply_received_wf(pre.channels[i], timestamp, pre.log_limit);
                assert forall|a: int| 0 <= a < post.channels.len() implies ch_wf(
                    #[trigger] post.channels[a],
                    post.log_limit,
                ) by {
                    if a != i {
                        assert(post.channels[a] == pre.channels[a]);
                    }
                }
            }
        },
        StatsEventV::Closed { id } => {
            if let Some(i) = find_id(pre.channels, id) {
                assert forall|a: int| 0 <= a < post.channels.len() implies ch_wf(
                    #[trigger] post.channels[a],
                    post.log_limit,
                ) by {
                    if a != i {
                        assert(post.channels[a] == pre.channels[a]);
                    }
                }
            }
        },
        StatsEventV::Notified { id } => {
            if let Some(i) = find_id(pre.channels, id) {
                assert forall|a: int| 0 <= a < post.channels.len() implies ch_wf(
                    #[trigger] post.channels[a],
                    post.log_limit,
                ) by {
                    if a != i {
                        assert(post.channels[a] == pre.channels[a]);
                    }
                }
            }
        },
    }
}

/// In a well-formed store with a positive log cap, both log queues hold at
/// most `log_limit` entries, with strictly increasing indices.
pub proof fn lemma_log_bound(s: StatsStoreV, i: int)
    requires
        store_wf(s),
        s.log_limit >= 1,
        0 <= i < s.channels.len(),
    ensures
        s.channels[i].sent_logs.len() <= s.log_limit,
        s.channels[i].received_logs.len() <= s.log_limit,
        forall|a: int, b: int| 0 <= a < b < s.channels[i].sent_logs.len()
            ==> (#[trigger] s.channels[i].sent_logs[a].index)
            < (#[trigger] s.channels[i].sent_logs[b].index),
        forall|a: int, b: int| 0 <= a < b < s.channels[i].received_logs.len()
            ==> (#[trigger] s.channels[i].received_logs[a].index)
            < (#[trigger] s.channels[i].received_logs[b].index),
{
    assert(ch_wf(s.channels[i], s.log_limit));
}

/// The store after a whole trace of events.
pub open spec fn spec_apply_events(s: StatsStoreV, evs: Seq<StatsEventV>) -> StatsStoreV
    decreases evs.len(),
{
    if evs.len() == 0 {
        s
    } else {
        spec_apply_events(spec_apply_event(s, evs[0]), evs.drop_first())
    }
}

/// One step never moves a channel out of a terminal state, and never
/// decreases its counters, as long as the step does not re-create the
/// channel's id.
pub proof fn lemma_step_preserves_channel(pre: StatsStoreV, ev: StatsEventV, id: u64)
    requires
        find_id(pre.channels, id) is Some,
        !(ev is Created) || ev.event_id() != id,
    ensures
        ({
            let post = spec_apply_event(pre, ev);
            let i = find_id(pre.channels, id)->Some_0;
            &&& find_id(post.channels, id) is Some
            &&& {
                let k = find_id(post.channels, id)->Some_0;
                &&& pre.channels[i].state.is_terminal() ==> post.channels[k].state
                    == pre.channels[i].state
                &&& post.channels[k].sent_count >= pre.channels[i].sent_count
                &&& post.channels[k].received_count >= pre.channels[i].received_count
            }
        }),
{
    let post = spec_apply_event(pre, ev);
    let i = find_id(pre.channels, id)->Some_0;
    crate::collector::lemma_find_id_props(pre.channels, id);
    match ev {
        StatsEventV::Created { id: cid, source, display_label, channel_type, elem_type, type_size } => {
            crate::collector::lemma_find_id_props(pre.channels, cid);
            match find_id(pre.channels, cid) {
                Some(c) => {
                    assert forall|a: int| 0 <= a < pre.channels.len() implies (
                    #[trigger] pre.channels[a].id) == post.channels[a].id by {
                        if a != c {
                            assert(post.channels[a] == pre.channels[a]);
                        }
                    }
                    lemma_find_id_same_ids(pre.channels, post.channels, id);
                    assert(post.channels[i] == pre.channels[i]);
                },
                None => {
                    let rec = post.channels.last();
                    lemma_find_id_push(pre.channels, rec, id);
                    assert(post.channels =~= pre.channels.push(rec));
                    assert(post.channels[i] == pre.channels[i]);
                },
            }
        },
        StatsEventV::MessageSent { id: eid, log, timestamp } => {
            lemma_step_updates_in_place(pre, ev, id);
        },
        StatsEventV::MessageReceived { id: eid, timestamp } => {
            lemma_step_updates_in_place(pre, ev, id);
        },
        StatsEventV::Closed { id: eid } => {
            lemma_step_updates_in_place(pre, ev, id);
        },
        StatsEventV::Notified { id: eid } => {
            lemma_step_updates_in_place(pre, ev, id);
        },
    }
}

/// For the four in-place events, the id layout is unchanged and the
/// record with `id` is either untouched or updated in place by the
/// per-event functions, which respect terminal states and counters.
proof fn lemma_step_updates_in_place(pre: StatsStoreV, ev: StatsEventV, id: u64)
    requires
        !(ev is Created),
        find_id(pre.channels, id) is Some,
    ensures
        ({
            let post = spec_apply_event(pre, ev);
            let i = find_id(pre.channels, id)->Some_0;
            &&& find_id(post.channels, id) == find_id(pre.channels, id)
            &&& pre.channels[i].state.is_terminal() ==> post.channels[i].state
                == pre.channels[i].state
            &&& post.channels[i].sent_count >= pre.channels[i].sent_count
            &&& post.channels[i].received_count >= pre.channels[i].received_count
        }),
{
    let post = spec_apply_event(pre, ev);
    let i = find_id(pre.channels, id)->Some_0;
    crate::collector::lemma_find_id_props(pre.channels, id);
    crate::collector::lemma_find_id_props(pre.channels, ev.event_id());
    assert(post.channels.len() == pre.channels.len());
    assert forall|a: int| 0 <= a < pre.channels.len() implies (#[trigger] pre.channels[a].id)
        == post.channels[a].id by {
        match find_id(pre.channels, ev.event_id()) {
            Some(e) => {
                if a != e {
                    assert(post.channels[a] == pre.channels[a]);
                }
            },
            None => {
                assert(post.channels[a] == pre.channels[a]);
            },
        }
    }
    lemma_find_id_same_ids(pre.channels, post.channels, id);
    match find_id(pre.channels, ev.event_id()) {
        Some(e) => {
            if i != e {
                assert(post.channels[i] == pre.channels[i]);
            }
        },
        None => {
            assert(post.channels[i] == pre.channels[i]);
        },
    }
}

/// Terminal states are sticky over whole traces: once a snapshot shows
/// `Closed` or `Notified` for an id, every later snapshot shows the same
/// state, provided no later event re-creates that id. (A second `Created`
/// event for the same id replaces the record and resets its state; ids
/// from the process-wide counter are never reused, so such an event does
/// not occur.)
pub proof fn lemma_terminal_state_sticky(s: StatsStoreV, evs: Seq<StatsEventV>, id: u64)
    requires
        state_of(s, id) is Some,
        state_of(s, id)->Some_0.is_terminal(),
        forall|k: int| 0 <= k < evs.len() ==> !((#[trigger] evs[k]) is Created && evs[k].event_id()
            == id),
    ensures
        state_of(spec_apply_events(s, evs), id) == state_of(s, id),
    decreases evs.len(),
{
    if evs.len() > 0 {
        let mid = spec_apply_event(s, evs[0]);
        lemma_step_preserves_channel(s, evs[0], id);
        assert forall|k: int|
            0 <= k < evs.drop_first().len() implies !((#[trigger] evs.drop_first()[k]) is Created
            && evs.drop_first()[k].event_id() == id) by {
            assert(evs.drop_first()[k] == evs[k + 1]);
        }
        lemma_terminal_state_sticky(mid, evs.drop_first(), id);
    }
}

/// A fresh `Created` event appends a record whose `iter` is exactly the
/// number of records already created at the same source, and raises that
/// count by one.
pub proof fn lemma_created_ordinal(pre: StatsStoreV, ev: StatsEventV)
    requires
        ev is Created,
        find_id(pre.channels, ev.event_id()) is None,
    ensures
        ({
            let post = spec_apply_event(pre, ev);
            let src = ev.created_source();
            &&& post.channels.len() == pre.channels.len() + 1
            &&& post.channels.last().iter == crate::collector::iter_of_count(
                count_source(pre.channels, src),
            )
            &&& count_source(post.channels, src) == count_source(pre.channels, src) + 1
        }),
{
    let post = spec_apply_event(pre, ev);
    let src = ev.created_source();
    assert(post.channels.drop_last() =~= pre.channels);
    assert(post.channels.last().source == src);
}

/// Channels created at one source location, without a user label, resolve
/// to pairwise distinct labels: the first keeps the base label, each later
/// one carries its own ordinal suffix.
pub proof fn lemma_resolved_labels_distinct(source: Seq<char>, i: u32, j: u32)
    requires
        i != j,
    ensures
        spec_resolve_label(source, None, i) != spec_resolve_label(source, None, j),
{
    reveal_strlit("-");
    let base = crate::label::spec_base_label(source, None);
    let li = spec_resolve_label(source, None, i);
    let lj = spec_resolve_label(source, None, j);
    lemma_dec_digits((i + 1) as nat);
    lemma_dec_digits((j + 1) as nat);
    if i == 0 || j == 0 {
        assert(li.len() != lj.len());
    } else {
        if li == lj {
            assert(li.len() == lj.len());
            assert(spec_dec((i + 1) as nat).len() == spec_dec((j + 1) as nat).len());
            assert(spec_dec((i + 1) as nat) =~= li.subrange(
                base.len() as int + 1,
                li.len() as int,
            ));
            assert(spec_dec((j + 1) as nat) =~= lj.subrange(
                base.len() as int + 1,
                lj.len() as int,
            ));
            lemma_dec_injective((i + 1) as nat, (j + 1) as nat);
            assert(false);
        }
    }
}

/// Number of `MessageSent` events for `id` in a trace.
pub open spec fn count_sent_events(evs: Seq<StatsEventV>, id: u64) -> nat
    decreases evs.len(),
{
    if evs.len() == 0 {
        0
    } else {
        count_sent_events(evs.drop_first(), id) + if evs[0] matches StatsEventV::MessageSent {
            id: eid,
            ..
        } && eid == id {
            1nat
        } else {
            0nat
        }
    }
}

/// Number of `MessageReceived` events for `id` in a trace.
pub open spec fn count_received_events(evs: Seq<StatsEventV>, id: u64) -> nat
    decreases evs.len(),
{
    if evs.len() == 0 {
        0
    } else {
        count_received_events(evs.drop_first(), id) + if evs[0]
            matches StatsEventV::MessageReceived { id: eid, .. } && eid == id {
            1nat
        } else {
            0nat
        }
    }
}

/// One non-`Created` step changes a channel's counters by exactly the
/// events it carries: `MessageSent` adds one to the sent count (while it
/// fits), `MessageReceived` to the received count, everything else leaves
/// both alone.
proof fn lemma_step_counters_exact(pre: StatsStoreV, ev: StatsEventV, id: u64)
    requires
        !(ev is Created),
        find_id(pre.channels, id) is Some,
    ensures
        ({
            let post = spec_apply_event(pre, ev);
            let i = find_id(pre.channels, id)->Some_0;
            &&& find_id(post.channels, id) == find_id(pre.channels, id)
            &&& post.channels[i].sent_count == if ev matches StatsEventV::MessageSent {
                id: eid,
                ..
            } && eid == id && pre.channels[i].sent_count < u64::MAX {
                pre.channels[i].sent_count + 1
            } else {
                pre.channels[i].sent_count as int
            }
            &&& post.channels[i].received_count == if ev
                matches StatsEventV::MessageReceived { id: eid, .. } && eid == id
                && pre.channels[i].received_count < u64::MAX {
                pre.channels[i].received_count + 1
            } else {
                pre.channels[i].received_count as int
            }
        }),
{
    lemma_step_updates_in_place(pre, ev, id);
    let post = spec_apply_event(pre, ev);
    let i = find_id(pre.channels, id)->Some_0;
    crate::collector::lemma_find_id_props(pre.channels, id);
    crate::collector::lemma_find_id_props(pre.channels, ev.event_id());
    if ev.event_id() != id {
        match find_id(pre.channels, ev.event_id()) {
            Some(e) => {
                assert(i != e);
                assert(post.channels[i] == pre.channels[i]);
            },
            None => {
                assert(post.channels[i] == pre.channels[i]);
            },
        }
    } else {
        assert(find_id(pre.channels, ev.event_id()) == Some(i));
    }
}

/// Over a whole trace without re-creation, a channel's counters advance by
/// exactly the number of its send and receive events, as long as the sums
/// stay below the counters' ceiling.
pub proof fn lemma_counters_count_events(s: StatsStoreV, evs: Seq<StatsEventV>, id: u64)
    requires
        find_id(s.channels, id) is Some,
        forall|k: int| 0 <= k < evs.len() ==> !((#[trigger] evs[k]) is Created && evs[k].event_id()
            == id),
        ({
            let i = find_id(s.channels, id)->Some_0;
            &&& s.channels[i].sent_count + count_sent_events(evs, id) <= u64::MAX
            &&& s.channels[i].received_count + count_received_events(evs, id) <= u64::MAX
        }),
    ensures
        ({
            let post = spec_apply_events(s, evs);
            let i = find_id(s.channels, id)->Some_0;
            &&& find_id(post.channels, id) is Some
            &&& {
                let k = find_id(post.channels, id)->Some_0;
                &&& post.channels[k].sent_count == s.channels[i].sent_count + count_sent_events(
                    evs,
                    id,
                )
                &&& post.channels[k].received_count == s.channels[i].received_count
                    + count_received_events(evs, id)
            }
        }),
    decreases evs.len(),
{
    if evs.len() > 0 {
        let mid = spec_apply_event(s, evs[0]);
        let i = find_id(s.channels, id)->Some_0;
        if evs[0] is Created {
            lemma_step_preserves_channel(s, evs[0], id);
            lemma_step_created_keeps_counters(s, evs[0], id);
        } else {
            lemma_step_counters_exact(s, evs[0], id);
        }
        assert forall|k: int|
            0 <= k < evs.drop_first().len() implies !((#[trigger] evs.drop_first()[k]) is Created
            && evs.drop_first()[k].event_id() == id) by {
            assert(evs.drop_first()[k] == evs[k + 1]);
        }
        lemma_counters_count_events(mid, evs.drop_first(), id);
    }
}

/// A `Created` step for another id leaves this channel's counters alone.
proof fn lemma_step_created_keeps_counters(pre: StatsStoreV, ev: StatsEventV, id: u64)
    requires
        ev is Created,
        ev.event_id() != id,
        find_id(pre.channels, id) is Some,
    ensures
        ({
            let post = spec_apply_event(pre, ev);
            let i = find_id(pre.channels, id)->Some_0;
            &&& find_id(post.channels, id) is Some
            &&& {
                let k = find_id(post.channels, id)->Some_0;
                &&& post.channels[k].sent_count == pre.channels[i].sent_count
                &&& post.channels[k].received_count == pre.channels[i].received_count
            }
        }),
{
    let post = spec_apply_event(pre, ev);
    let i = find_id(pre.channels, id)->Some_0;
    crate::collector::lemma_find_id_props(pre.channels, id);
    crate::collector::lemma_find_id_props(pre.channels, ev.event_id());
    match find_id(pre.channels, ev.event_id()) {
        Some(c) => {
            assert forall|a: int| 0 <= a < pre.channels.len() implies (
            #[trigger] pre.channels[a].id) == post.channels[a].id by {
                if a != c {
                    assert(post.channels[a] == pre.channels[a]);
                }
            }
            lemma_find_id_same_ids(pre.channels, post.channels, id);
            assert(i != c);
            assert(post.channels[i] == pre.channels[i]);
        },
        None => {
            let rec = post.channels.last();
            lemma_find_id_push(pre.channels, rec, id);
            assert(post.channels =~= pre.channels.push(rec));
            assert(post.channels[i] == pre.channels[i]);
        },
    }
}

/// Count consistency at the store: a channel created with zero counters
/// and fed a trace whose receive events never outnumber its send events by
/// construction ends with `received_count <= sent_count <= received_count
/// + bound`, the bound being whatever held of the event stream itself.
pub proof fn lemma_store_count_consistency(
    s: StatsStoreV,
    evs: Seq<StatsEventV>,
    id: u64,
    bound: nat,
)
    requires
        find_id(s.channels, id) is Some,
        ({
            let i = find_id(s.channels, id)->Some_0;
            s.channels[i].sent_count == 0 && s.channels[i].received_count == 0
        }),
        forall|k: int| 0 <= k < evs.len() ==> !((#[trigger] evs[k]) is Created && evs[k].event_id()
            == id),
        count_sent_events(evs, id) <= u64::MAX,
        count_received_events(evs, id) <= count_sent_events(evs, id),
        count_sent_events(evs, id) <= count_received_events(evs, id) + bound,
    ensures
        ({
            let post = spec_apply_events(s, evs);
            &&& find_id(post.channels, id) is Some
            &&& {
                let k = find_id(post.channels, id)->Some_0;
                &&& post.channels[k].received_count <= post.channels[k].sent_count
                &&& post.channels[k].sent_count <= post.channels[k].received_count + bound
            }
        }),
{
    lemma_counters_count_events(s, evs, id);
}

/// Whether the store knows an id.
pub open spec fn has_id(s: StatsStoreV, id: u64) -> bool {
    find_id(s.channels, id) is Some
}

/// Appending a record makes an id known exactly when it was known before
/// or the new record carries it.
proof fn lemma_find_id_push_any(chs: Seq<ChannelStatsV>, rec: ChannelStatsV, id: u64)
    ensures
        find_id(chs.push(rec), id) is Some <==> (find_id(chs, id) is Some || rec.id == id),
    decreases chs.len(),
{
    if chs.len() == 0 {
        assert(chs.push(rec)[0] == rec);
        assert(chs.push(rec).drop_first() =~= Seq::<ChannelStatsV>::empty());
        assert(find_id(Seq::<ChannelStatsV>::empty(), id) is None);
    } else {
        assert(chs.push(rec)[0] == chs[0]);
        if chs[0].id != id {
            assert(chs.push(rec).drop_first() =~= chs.drop_first().push(rec));
            lemma_find_id_push_any(chs.drop_first(), rec, id);
        }
    }
}

/// An in-place event (anything but `Created`) keeps the id layout.
proof fn lemma_step_in_place_ids(pre: StatsStoreV, ev: StatsEventV, id: u64)
    requires
        !(ev is Created),
    ensures
        has_id(spec_apply_event(pre, ev), id) == has_id(pre, id),
{
    let post = spec_apply_event(pre, ev);
    crate::collector::lemma_find_id_props(pre.channels, ev.event_id());
    assert forall|a: int| 0 <= a < pre.channels.len() implies (#[trigger] pre.channels[a].id)
        == post.channels[a].id by {
        match find_id(pre.channels, ev.event_id()) {
            Some(e) => {
                if a != e {
                    assert(post.channels[a] == pre.channels[a]);
                }
            },
            None => {
                assert(post.channels[a] == pre.channels[a]);
            },
        }
    }
    assert(post.channels.len() == pre.channels.len());
    lemma_find_id_same_ids(pre.channels, post.channels, id);
}

/// One step makes an id known exactly when it was known before or the
/// step is a `Created` event for it.
pub proof fn lemma_step_known_ids(pre: StatsStoreV, ev: StatsEventV, id: u64)
    ensures
        has_id(spec_apply_event(pre, ev), id) <==> (has_id(pre, id) || (ev is Created
            && ev.event_id() == id)),
{
    let post = spec_apply_event(pre, ev);
    match ev {
        StatsEventV::Created { id: cid, source, display_label, channel_type, elem_type, type_size } => {
            crate::collector::lemma_find_id_props(pre.channels, cid);
            match find_id(pre.channels, cid) {
                Some(c) => {
                    assert forall|a: int| 0 <= a < pre.channels.len() implies (
                    #[trigger] pre.channels[a].id) == post.channels[a].id by {
                        if a != c {
                            assert(post.channels[a] == pre.channels[a]);
                        } else {
                            assert(post.channels[a].id == cid);
                        }
                    }
                    assert(post.channels.len() == pre.channels.len());
                    lemma_find_id_same_ids(pre.channels, post.channels, id);
                },
                None => {
                    let rec = post.channels.last();
                    assert(post.channels =~= pre.channels.push(rec));
                    assert(rec.id == cid);
                    lemma_find_id_push_any(pre.channels, rec, id);
                },
            }
        },
        StatsEventV::MessageSent { .. } => {
            lemma_step_in_place_ids(pre, ev, id);
        },
        StatsEventV::MessageReceived { .. } => {
            lemma_step_in_place_ids(pre, ev, id);
        },
        StatsEventV::Closed { .. } => {
            lemma_step_in_place_ids(pre, ev, id);
        },
        StatsEventV::Notified { .. } => {
            lemma_step_in_place_ids(pre, ev, id);
        },
    }
}

/// The store knows an id after a trace exactly when it knew it before or
/// the trace carries a `Created` event for it: records exist for created
/// channels and for nothing else.
pub proof fn lemma_known_ids(s: StatsStoreV, evs: Seq<StatsEventV>, id: u64)
    ensures
        has_id(spec_apply_events(s, evs), id) <==> (has_id(s, id) || exists|k: int|
            0 <= k < evs.len() && (#[trigger] evs[k]) is Created && evs[k].event_id() == id),
    decreases evs.len(),
{
    if evs.len() == 0 {
    } else {
        let mid = spec_apply_event(s, evs[0]);
        lemma_step_known_ids(s, evs[0], id);
        lemma_known_ids(mid, evs.drop_first(), id);
        if has_id(spec_apply_events(s, evs), id) {
            if !has_id(s, id) {
                if has_id(mid, id) {
                    assert((evs[0]) is Created && evs[0].event_id() == id);
                } else {
                    let k = choose|k: int|
                        0 <= k < evs.drop_first().len() && (#[trigger] evs.drop_first()[k])
                            is Created && evs.drop_first()[k].event_id() == id;
                    assert(evs[k + 1] == evs.drop_first()[k]);
                    assert((evs[k + 1]) is Created && evs[k + 1].event_id() == id);
                }
            }
        }
        if has_id(s, id) || exists|k: int|
            0 <= k < evs.len() && (#[trigger] evs[k]) is Created && evs[k].event_id() == id {
            if !has_id(s, id) {
                let k = choose|k: int|
                    0 <= k < evs.len() && (#[trigger] evs[k]) is Created && evs[k].event_id()
                        == id;
                if k == 0 {
                    assert(has_id(mid, id));
                } else {
                    assert(evs.drop_first()[k - 1] == evs[k]);
                    assert((evs.drop_first()[k - 1]) is Created && evs.drop_first()[k
                        - 1].event_id() == id);
                }
            }
        }
    }
}

/// When a log queue has strictly increasing indices — as every queue in a
/// well-formed store does — the descending listing the logs endpoint
/// serves is exactly the stored queue reversed: newest entry first, oldest
/// last.
pub proof fn lemma_logs_listing_is_reverse(logs: Seq<LogEntryV>, r: Seq<LogEntryV>)
    requires
        forall|a: int, b: int| 0 <= a < b < logs.len() ==> (#[trigger] logs[a].index)
            < (#[trigger] logs[b].index),
        vstd::relations::sorted_by(r, crate::snapshot::log_desc_leq()),
        r.to_multiset() == logs.to_multiset(),
    ensures
        r == logs.reverse(),
    decreases logs.len(),
{
    broadcast use vstd::seq_lib::group_to_multiset_ensures;

    assert(r.to_multiset().len() == r.len());
    assert(logs.to_multiset().len() == logs.len());
    if logs.len() == 0 {
        assert(r.len() == 0);
        assert(r =~= logs.reverse());
    } else {
        assert(r.len() == logs.len());
        let m = logs.last();
        // the head of the listing is the entry with the greatest index
        assert(logs.contains(m));
        assert(r.to_multiset().count(m) > 0);
        assert(r.contains(m));
        let k = choose|k: int| 0 <= k < r.len() && r[k] == m;
        if k > 0 {
            assert(crate::snapshot::log_desc_leq()(r[0], r[k]));
        }
        assert(r[0].index >= m.index);
        assert(r.contains(r[0]));
        assert(r.to_multiset().count(r[0]) > 0);
        assert(logs.to_multiset().count(r[0]) > 0);
        assert(logs.contains(r[0]));
        let p = choose|p: int| 0 <= p < logs.len() && logs[p] == r[0];
        if p < logs.len() - 1 {
            assert(logs[p].index < logs.last().index);
        }
        assert(r[0] == m);
        // peel one entry off both sides and recurse
        assert(r.remove(0).to_multiset() =~= r.to_multiset().remove(m));
        assert(logs.remove(logs.len() - 1).to_multiset() =~= logs.to_multiset().remove(m));
        assert(r.remove(0) =~= r.drop_first());
        assert(logs.remove(logs.len() - 1) =~= logs.drop_last());
        assert(r.drop_first().to_multiset() == logs.drop_last().to_multiset());
        assert forall|a: int, b: int|
            0 <= a < b < r.drop_first().len() implies #[trigger] crate::snapshot::log_desc_leq()(
            r.drop_first()[a],
            r.drop_first()[b],
        ) by {
            assert(r.drop_first()[a] == r[a + 1]);
            assert(r.drop_first()[b] == r[b + 1]);
            assert(crate::snapshot::log_desc_leq()(r[a + 1], r[b + 1]));
        }
        assert forall|a: int, b: int|
            0 <= a < b < logs.drop_last().len() implies (#[trigger] logs.drop_last()[a].index)
            < (#[trigger] logs.drop_last()[b].index) by {
            assert(logs.drop_last()[a] == logs[a]);
            assert(logs.drop_last()[b] == logs[b]);
        }
        lemma_logs_listing_is_reverse(logs.drop_last(), r.drop_first());
        assert forall|i: int| 0 <= i < r.len() implies r[i] == logs.reverse()[i] by {
            if i == 0 {
                assert(logs.reverse()[0] == logs.last());
            } else {
                assert(r[i] == r.drop_first()[i - 1]);
                assert(r.drop_first()[i - 1] == logs.drop_last().reverse()[i - 1]);
                assert(logs.drop_last().reverse()[i - 1] == logs.drop_last()[logs.drop_last().len()
                    - 1 - (i - 1)]);
                assert(logs.drop_last()[logs.len() - 1 - i] == logs[logs.len() - 1 - i]);
                assert(logs.reverse()[i] == logs[logs.len() - 1 - i]);
            }
        }
        assert(r =~= logs.reverse());
    }
}

/// A run of `Created` events, all at one source, all without a user
/// label, with ids the store does not know and that are pairwise
/// distinct.
pub open spec fn fresh_unlabeled_creations(
    s: StatsStoreV,
    evs: Seq<StatsEventV>,
    src: Seq<char>,
) -> bool {
    &&& forall|k: int| 0 <= k < evs.len() ==> (#[trigger] evs[k]) is Created
        && evs[k].created_source() == src && evs[k].created_label() is None
    &&& forall|k: int| 0 <= k < evs.len() ==> !has_id(s, (#[trigger] evs[k]).event_id())
    &&& forall|k1: int, k2: int| 0 <= k1 < k2 < evs.len() ==> (#[trigger] evs[k1].event_id())
        != (#[trigger] evs[k2].event_id())
}

/// Channels created in a run at one source, without user labels, are
/// appended in creation order with consecutive `iter` ordinals, so their
/// resolved labels are the base label followed by the ordinal-suffixed
/// forms, in that order.
pub proof fn lemma_labels_in_creation_order(
    s: StatsStoreV,
    evs: Seq<StatsEventV>,
    src: Seq<char>,
    c: nat,
)
    requires
        fresh_unlabeled_creations(s, evs, src),
        count_source(s.channels, src) == c,
        c + evs.len() < u32::MAX,
    ensures
        ({
            let post = spec_apply_events(s, evs);
            &&& post.channels.len() == s.channels.len() + evs.len()
            &&& forall|i: int| 0 <= i < s.channels.len() ==> post.channels[i] == s.channels[i]
            &&& forall|j: int| 0 <= j < evs.len() ==> {
                let rec = #[trigger] post.channels[s.channels.len() + j];
                &&& rec.id == evs[j].event_id()
                &&& rec.source == src
                &&& rec.label is None
                &&& rec.iter == c + j
                &&& spec_resolve_label(rec.source, rec.label, rec.iter) == spec_resolve_label(
                    src,
                    None,
                    (c + j) as u32,
                )
            }
        }),
    decreases evs.len(),
{
    if evs.len() > 0 {
        let ev0 = evs[0];
        let mid = spec_apply_event(s, ev0);
        assert(find_id(s.channels, ev0.event_id()) is None);
        lemma_created_ordinal(s, ev0);
        let rec0 = mid.channels.last();
        assert(mid.channels =~= s.channels.push(rec0));
        assert(rec0.iter == c);
        assert(rec0.label is None);
        let tail = evs.drop_first();
        assert forall|k: int| 0 <= k < tail.len() implies (#[trigger] tail[k]) is Created
            && tail[k].created_source() == src && tail[k].created_label() is None by {
            assert(tail[k] == evs[k + 1]);
        }
        assert forall|k: int| 0 <= k < tail.len() implies !has_id(
            mid,
            (#[trigger] tail[k]).event_id(),
        ) by {
            assert(tail[k] == evs[k + 1]);
            lemma_step_known_ids(s, ev0, evs[k + 1].event_id());
        }
        assert forall|k1: int, k2: int| 0 <= k1 < k2 < tail.len() implies (
        #[trigger] tail[k1].event_id()) != (#[trigger] tail[k2].event_id()) by {
            assert(tail[k1] == evs[k1 + 1]);
            assert(tail[k2] == evs[k2 + 1]);
        }
        lemma_labels_in_creation_order(mid, tail, src, c + 1);
        let post = spec_apply_events(s, evs);
        assert(post == spec_apply_events(mid, tail));
        assert forall|j: int| 0 <= j < evs.len() implies {
            let rec = #[trigger] post.channels[s.channels.len() + j];
            &&& rec.id == evs[j].event_id()
            &&& rec.source == src
            &&& rec.label is None
            &&& rec.iter == c + j
            &&& spec_resolve_label(rec.source, rec.label, rec.iter) == spec_resolve_label(
                src,
                None,
                (c + j) as u32,
            )
        } by {
            if j == 0 {
                assert(post.channels[s.channels.len() as int] == mid.channels[s.channels.len() as int]);
                assert(mid.channels[s.channels.len() as int] == rec0);
            } else {
                assert(post.channels[mid.channels.len() + (j - 1)]
                    == post.channels[s.channels.len() + j]);
                assert(tail[j - 1] == evs[j]);
            }
        }
    }
}

} // verus!

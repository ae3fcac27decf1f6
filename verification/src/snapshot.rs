//! Read-side views of the store: the sorted snapshot served on `/metrics`
//! and the per-channel log listing served on `/logs/{id}`.

use crate::collector::{find_id, StatsStore};
use crate::label::{resolve_label, spec_resolve_label, str_eq};
use crate::numerals::{parse_u64, spec_parse_u64};
use crate::stats::{logs_view, ChannelState, ChannelStats, ChannelStatsV, ChannelType, LogEntry, LogEntryV};
use vstd::prelude::*;

verus! {

/// A snapshot row: everything `/metrics` reports for one channel, with the
/// derived quantities computed and the label resolved.
#[derive(Debug)]
pub struct SerializableChannelStats {
    pub id: u64,
    pub source: String,
    pub label: String,
    pub has_custom_label: bool,
    pub channel_type: ChannelType,
    pub state: ChannelState,
    pub sent_count: u64,
    pub received_count: u64,
    pub queued: u64,
    pub elem_type: String,
    pub type_size: usize,
    pub total_bytes: u64,
    pub queued_bytes: u64,
    pub iter: u32,
}

/// Mathematical image of a snapshot row.
#[verifier::ext_equal]
pub struct SerializableChannelStatsV {
    pub id: u64,
    pub source: Seq<char>,
    pub label: Seq<char>,
    pub has_custom_label: bool,
    pub channel_type: ChannelType,
    pub state: ChannelState,
    pub sent_count: u64,
    pub received_count: u64,
    pub queued: u64,
    pub elem_type: Seq<char>,
    pub type_size: usize,
    pub total_bytes: u64,
    pub queued_bytes: u64,
    pub iter: u32,
}

impl View for SerializableChannelStats {
    type V = SerializableChannelStatsV;

    open spec fn view(&self) -> SerializableChannelStatsV {
        SerializableChannelStatsV {
            id: self.id,
            source: self.source@,
            label: self.label@,
            has_custom_label: self.has_custom_label,
            channel_type: self.channel_type,
            state: self.state,
            sent_count: self.sent_count,
            received_count: self.received_count,
            queued: self.queued,
            elem_type: self.elem_type@,
            type_size: self.type_size,
            total_bytes: self.total_bytes,
            queued_bytes: self.queued_bytes,
            iter: self.iter,
        }
    }
}

/// The row a stats record turns into.
pub open spec fn spec_serializable(ch: ChannelStatsV) -> SerializableChannelStatsV {
    SerializableChannelStatsV {
        id: ch.id,
        source: ch.source,
        label: spec_resolve_label(ch.source, ch.label, ch.iter),
        has_custom_label: ch.label is Some,
        channel_type: ch.channel_type,
        state: ch.state,
        sent_count: ch.sent_count,
        received_count: ch.received_count,
        queued: ch.spec_queued(),
        elem_type: ch.elem_type,
        type_size: ch.type_size,
        total_bytes: (ch.sent_count * ch.type_size) as u64,
        queued_bytes: (ch.spec_queued() * ch.type_size) as u64,
        iter: ch.iter,
    }
}

impl SerializableChannelStats {
    /// Build the snapshot row for one record.
    pub fn from_stats(stats: &ChannelStats) -> (r: Self)
        requires
            stats.sent_count * stats.type_size <= u64::MAX,
        ensures
            r@ == spec_serializable(stats@),
    {
        proof {
            assert(stats@.spec_queued() * stats.type_size <= stats.sent_count * stats.type_size)
                by (nonlinear_arith)
                requires
                    stats@.spec_queued() <= stats.sent_count,
                    stats.type_size >= 0,
            ;
        }
        let label = resolve_label(
            stats.source.as_str(),
            match stats.label {
                Some(ref l) => Some(l.as_str()),
                None => None,
            },
            stats.iter,
        );
        SerializableChannelStats {
            id: stats.id,
            source: stats.source.clone(),
            label,
            has_custom_label: stats.label.is_some(),
            channel_type: stats.channel_type,
            state: stats.state,
            sent_count: stats.sent_count,
            received_count: stats.received_count,
            queued: stats.queued(),
            elem_type: stats.elem_type.clone(),
            type_size: stats.type_size,
            total_bytes: stats.total_bytes(),
            queued_bytes: stats.queued_bytes(),
            iter: stats.iter,
        }
    }
}

/// Lexicographic order on strings by code point, the order `str` compares
/// in.
pub open spec fn str_le(a: Seq<char>, b: Seq<char>) -> bool
    decreases a.len(),
{
    if a.len() == 0 {
        true
    } else if b.len() == 0 {
        false
    } else if a[0] < b[0] {
        true
    } else if a[0] > b[0] {
        false
    } else {
        str_le(a.drop_first(), b.drop_first())
    }
}

/// `str_le` relates every pair, one way or the other.
pub proof fn lemma_str_le_total(a: Seq<char>, b: Seq<char>)
    ensures
        str_le(a, b) || str_le(b, a),
    decreases a.len(),
{
    if a.len() == 0 {
        assert(str_le(a, b));
    } else if b.len() == 0 {
        assert(str_le(b, a));
    } else if a[0] < b[0] {
        assert(str_le(a, b));
    } else if a[0] > b[0] {
        assert(str_le(b, a));
    } else {
        lemma_str_le_total(a.drop_first(), b.drop_first());
        assert(str_le(a, b) == str_le(a.drop_first(), b.drop_first()));
        assert(str_le(b, a) == str_le(b.drop_first(), a.drop_first()));
    }
}

/// `str_le` both ways only on equal strings.
pub proof fn lemma_str_le_antisymmetric(a: Seq<char>, b: Seq<char>)
    requires
        str_le(a, b),
        str_le(b, a),
    ensures
        a == b,
    decreases a.len(),
{
    if a.len() == 0 {
        assert(str_le(b, a) ==> b.len() == 0);
        assert(a =~= b);
    } else if b.len() == 0 {
        assert(!str_le(a, b));
    } else if a[0] < b[0] {
        assert(!str_le(b, a));
    } else if a[0] > b[0] {
        assert(!str_le(a, b));
    } else {
        assert(str_le(a, b) == str_le(a.drop_first(), b.drop_first()));
        assert(str_le(b, a) == str_le(b.drop_first(), a.drop_first()));
        lemma_str_le_antisymmetric(a.drop_first(), b.drop_first());
        assert(a[0] == b[0]);
        assert(a =~= seq![a[0]] + a.drop_first());
        assert(b =~= seq![b[0]] + b.drop_first());
    }
}

/// `str_le` is transitive.
pub proof fn lemma_str_le_transitive(a: Seq<char>, b: Seq<char>, c: Seq<char>)
    requires
        str_le(a, b),
        str_le(b, c),
    ensures
        str_le(a, c),
    decreases a.len(),
{
    if a.len() == 0 {
        assert(str_le(a, c));
    } else if b.len() == 0 {
        assert(!str_le(a, b));
    } else if c.len() == 0 {
        assert(!str_le(b, c));
    } else if a[0] < b[0] {
        if b[0] <= c[0] {
            assert(str_le(a, c));
        }
    } else if a[0] > b[0] {
        assert(!str_le(a, b));
    } else if b[0] < c[0] {
        assert(str_le(a, c));
    } else if b[0] > c[0] {
        assert(!str_le(b, c));
    } else {
        assert(str_le(a, b) == str_le(a.drop_first(), b.drop_first()));
        assert(str_le(b, c) == str_le(b.drop_first(), c.drop_first()));
        lemma_str_le_transitive(a.drop_first(), b.drop_first(), c.drop_first());
        assert(str_le(a, c) == str_le(a.drop_first(), c.drop_first()));
    }
}

/// The snapshot order as a relation value, for `sorted_by`.
pub open spec fn stats_leq() -> spec_fn(ChannelStatsV, ChannelStatsV) -> bool {
    |a: ChannelStatsV, b: ChannelStatsV| stats_le(a, b)
}

/// The snapshot order: rows with a user label first, ordered by label then
/// `iter`; rows without, ordered by source then `iter`.
pub open spec fn stats_le(a: ChannelStatsV, b: ChannelStatsV) -> bool {
    match (a.label, b.label) {
        (Some(la), Some(lb)) => if la != lb {
            str_le(la, lb)
        } else {
            a.iter <= b.iter
        },
        (Some(_), None) => true,
        (None, Some(_)) => false,
        (None, None) => if a.source != b.source {
            str_le(a.source, b.source)
        } else {
            a.iter <= b.iter
        },
    }
}

/// `stats_le` relates every pair.
pub proof fn lemma_stats_le_total(a: ChannelStatsV, b: ChannelStatsV)
    ensures
        stats_le(a, b) || stats_le(b, a),
{
    match (a.label, b.label) {
        (Some(la), Some(lb)) => {
            lemma_str_le_total(la, lb);
        },
        (None, None) => {
            lemma_str_le_total(a.source, b.source);
        },
        _ => {},
    }
}

/// `stats_le` is transitive.
pub proof fn lemma_stats_le_transitive(a: ChannelStatsV, b: ChannelStatsV, c: ChannelStatsV)
    requires
        stats_le(a, b),
        stats_le(b, c),
    ensures
        stats_le(a, c),
{
    match (a.label, b.label, c.label) {
        (Some(la), Some(lb), Some(lc)) => {
            if la != lb && lb != lc {
                lemma_str_le_transitive(la, lb, lc);
                if la == lc {
                    lemma_str_le_antisymmetric(la, lb);
                }
            }
        },
        (None, None, None) => {
            if a.source != b.source && b.source != c.source {
                lemma_str_le_transitive(a.source, b.source, c.source);
                if a.source == c.source {
                    lemma_str_le_antisymmetric(a.source, b.source);
                }
            }
        },
        _ => {},
    }
}

/// Exec comparison in the order `stats_le`.
fn str_le_exec(a: &str, b: &str) -> (r: bool)
    ensures
        r == str_le(a@, b@),
{
    let na = a.unicode_len();
    let nb = b.unicode_len();
    let n = if na < nb {
        na
    } else {
        nb
    };
    let ghost ga = a@;
    let ghost gb = b@;
    proof {
        assert(ga.skip(0) =~= ga);
        assert(gb.skip(0) =~= gb);
    }
    let mut i: usize = 0;
    while i < n
        invariant
            i <= n,
            n == if ga.len() < gb.len() { ga.len() } else { gb.len() },
            ga == a@,
            gb == b@,
            forall|j: int| 0 <= j < i ==> ga[j] == gb[j],
            str_le(ga, gb) == str_le(ga.skip(i as int), gb.skip(i as int)),
        decreases n - i,
    {
        let ca = a.get_char(i);
        let cb = b.get_char(i);
        proof {
            assert(ga.skip(i as int)[0] == ga[i as int]);
            assert(gb.skip(i as int)[0] == gb[i as int]);
            assert(ga.skip(i as int).drop_first() =~= ga.skip(i + 1));
            assert(gb.skip(i as int).drop_first() =~= gb.skip(i + 1));
        }
        if ca < cb {
            return true;
        }
        if ca > cb {
            return false;
        }
        i = i + 1;
    }
    proof {
        assert(ga.skip(n as int).len() == ga.len() - n);
        assert(gb.skip(n as int).len() == gb.len() - n);
    }
    na <= nb
}

/// Whether `a` precedes (or ties with) `b` in the snapshot order; see
/// `stats_le`.
pub fn compare_channel_stats(a: &ChannelStats, b: &ChannelStats) -> (r: bool)
    ensures
        r == stats_le(a@, b@),
{
    match (&a.label, &b.label) {
        (Some(la), Some(lb)) => {
            if str_eq(la.as_str(), lb.as_str()) {
                a.iter <= b.iter
            } else {
                str_le_exec(la.as_str(), lb.as_str())
            }
        },
        (Some(_), None) => true,
        (None, Some(_)) => false,
        (None, None) => {
            if str_eq(a.source.as_str(), b.source.as_str()) {
                a.iter <= b.iter
            } else {
                str_le_exec(a.source.as_str(), b.source.as_str())
            }
        },
    }
}

/// The view of a sequence of records.
pub open spec fn stats_seq_view(v: Seq<ChannelStats>) -> Seq<ChannelStatsV> {
    v.map_values(|c: ChannelStats| c@)
}

/// Insert a record into a sorted vector, keeping it sorted.
fn insert_sorted(v: &mut Vec<ChannelStats>, x: ChannelStats)
    requires
        vstd::relations::sorted_by(stats_seq_view(old(v)@), stats_leq()),
    ensures
        final(v)@.len() == old(v)@.len() + 1,
        vstd::relations::sorted_by(stats_seq_view(final(v)@), stats_leq()),
        stats_seq_view(final(v)@).to_multiset() == stats_seq_view(old(v)@).to_multiset().insert(
            x@,
        ),
{
    broadcast use vstd::seq_lib::group_to_multiset_ensures;

    let ghost pre = stats_seq_view(v@);
    let mut pos: usize = 0;
    while pos < v.len() && compare_channel_stats(&v[pos], &x)
        invariant
            pos <= v@.len(),
            stats_seq_view(v@) == pre,
            vstd::relations::sorted_by(pre, stats_leq()),
            forall|k: int| 0 <= k < pos ==> stats_le(pre[k], x@),
        decreases v@.len() - pos,
    {
        pos = pos + 1;
    }
    proof {
        if pos < v@.len() {
            lemma_stats_le_total(pre[pos as int], x@);
        }
    }
    let ghost gx = x@;
    v.insert(pos, x);
    proof {
        let post = stats_seq_view(v@);
        assert(post =~= pre.insert(pos as int, gx));
        // sortedness of the result
        assert forall|i: int, j: int| 0 <= i < j < post.len() implies #[trigger] stats_leq()(
            post[i],
            post[j],
        ) by {
            let p = pos as int;
            if i < p && j == p {
                assert(stats_le(pre[i], gx));
            } else if i == p && j > p {
                assert(post[j] == pre[j - 1]);
                if p < pre.len() {
                    if p < j - 1 {
                        assert(stats_leq()(pre[p], pre[j - 1]));
                    }
                    lemma_stats_le_transitive(gx, pre[p], pre[j - 1]);
                }
            } else if i < p && j > p {
                assert(post[i] == pre[i] && post[j] == pre[j - 1]);
                assert(i <= j - 1);
                if i == j - 1 {
                    assert(stats_le(pre[i], gx));
                    if p < pre.len() {
                        lemma_stats_le_total(pre[p], gx);
                    }
                } else {
                    assert(stats_leq()(pre[i], pre[j - 1]));
                }
            } else if i > p && j > p {
                assert(post[i] == pre[i - 1] && post[j] == pre[j - 1]);
                assert(stats_leq()(pre[i - 1], pre[j - 1]));
            } else if i < p && j < p {
                assert(stats_leq()(pre[i], pre[j]));
            }
        }
        // multiset of the result
        assert(post.remove(pos as int) =~= pre);
        assert(post[pos as int] == gx);
        assert(pre.to_multiset() =~= post.to_multiset().remove(gx));
        assert(post.contains(gx));
        assert(post.to_multiset().count(gx) > 0);
        assert(post.to_multiset() =~= pre.to_multiset().insert(gx));
    }
}

impl StatsStore {
    /// A copy of every record, in store order.
    pub fn get_channel_stats(&self) -> (r: Vec<ChannelStats>)
        ensures
            stats_seq_view(r@) == self@.channels,
    {
        let mut r: Vec<ChannelStats> = Vec::new();
        let mut i: usize = 0;
        while i < self.channels.len()
            invariant
                i <= self.channels@.len(),
                r@.len() == i,
                forall|j: int| 0 <= j < i ==> r@[j]@ == self.channels@[j]@,
            decreases self.channels@.len() - i,
        {
            r.push(self.channels[i].clone());
            i = i + 1;
        }
        proof {
            assert(stats_seq_view(r@) =~= self@.channels);
        }
        r
    }

    /// A copy of every record, sorted in the snapshot order (`stats_le`).
    pub fn get_sorted_channel_stats(&self) -> (r: Vec<ChannelStats>)
        ensures
            r@.len() == self@.channels.len(),
            vstd::relations::sorted_by(stats_seq_view(r@), stats_leq()),
            stats_seq_view(r@).to_multiset() == self@.channels.to_multiset(),
    {
        broadcast use vstd::seq_lib::group_to_multiset_ensures;

        let mut r: Vec<ChannelStats> = Vec::new();
        let mut i: usize = 0;
        proof {
            assert(stats_seq_view(r@) =~= Seq::<ChannelStatsV>::empty());
            assert(self@.channels.take(0) =~= Seq::<ChannelStatsV>::empty());
        }
        while i < self.channels.len()
            invariant
                i <= self.channels@.len(),
                r@.len() == i,
                vstd::relations::sorted_by(stats_seq_view(r@), stats_leq()),
                stats_seq_view(r@).to_multiset() == self@.channels.take(i as int).to_multiset(),
            decreases self.channels@.len() - i,
        {
            let x = self.channels[i].clone();
            proof {
                broadcast use vstd::seq_lib::group_to_multiset_ensures;

                let x0 = self@.channels[i as int];
                assert(self@.channels.take(i + 1) =~= self@.channels.take(i as int).push(x0));
                assert(self@.channels.take(i as int).push(x0).to_multiset() =~= self@.channels.take(
                    i as int,
                ).to_multiset().insert(x0));
                assert(x@ == x0);
            }
            insert_sorted(&mut r, x);
            i = i + 1;
        }
        proof {
            assert(self@.channels.take(self@.channels.len() as int) =~= self@.channels);
        }
        r
    }

    /// The `/metrics` payload: one row per channel, sorted.
    pub fn get_serializable_stats(&self) -> (r: Vec<SerializableChannelStats>)
        requires
            forall|j: int| 0 <= j < self@.channels.len() ==> (#[trigger] self@.channels[j].sent_count)
                * self@.channels[j].type_size <= u64::MAX,
        ensures
            r@.len() == self@.channels.len(),
            exists|perm: Seq<ChannelStatsV>|
                {
                    &&& #[trigger] perm.to_multiset() == self@.channels.to_multiset()
                    &&& vstd::relations::sorted_by(perm, stats_leq())
                    &&& r@.map_values(|s: SerializableChannelStats| s@) == perm.map_values(
                        |c: ChannelStatsV| spec_serializable(c),
                    )
                },
    {
        broadcast use vstd::seq_lib::group_to_multiset_ensures;

        let sorted = self.get_sorted_channel_stats();
        let ghost sortedv = stats_seq_view(sorted@);
        proof {
            assert(sortedv.to_multiset().len() == self@.channels.to_multiset().len());
            assert forall|j: int| 0 <= j < sortedv.len() implies (#[trigger] sortedv[j].sent_count)
                * sortedv[j].type_size <= u64::MAX by {
                assert(sortedv.contains(sortedv[j]));
                assert(sortedv.to_multiset().count(sortedv[j]) > 0);
                assert(self@.channels.to_multiset().count(sortedv[j]) > 0);
                assert(self@.channels.contains(sortedv[j]));
                let k = choose|k: int| 0 <= k < self@.channels.len() && self@.channels[k]
                    == sortedv[j];
                assert(self@.channels[k].sent_count * self@.channels[k].type_size <= u64::MAX);
            }
        }
        let mut r: Vec<SerializableChannelStats> = Vec::new();
        let mut i: usize = 0;
        while i < sorted.len()
            invariant
                i <= sorted@.len(),
                sortedv == stats_seq_view(sorted@),
                forall|j: int| 0 <= j < sortedv.len() ==> (#[trigger] sortedv[j].sent_count)
                    * sortedv[j].type_size <= u64::MAX,
                r@.len() == i,
                forall|j: int| 0 <= j < i ==> r@[j]@ == spec_serializable(sortedv[j]),
            decreases sorted@.len() - i,
        {
            proof {
                assert(sortedv[i as int].sent_count * sortedv[i as int].type_size <= u64::MAX);
            }
            let row = SerializableChannelStats::from_stats(&sorted[i]);
            r.push(row);
            i = i + 1;
        }
        proof {
            assert(sortedv.to_multiset().len() == self@.channels.to_multiset().len());
            assert(r@.map_values(|s: SerializableChannelStats| s@) =~= sortedv.map_values(
                |c: ChannelStatsV| spec_serializable(c),
            ));
            assert(sortedv.to_multiset() == self@.channels.to_multiset()
                && vstd::relations::sorted_by(sortedv, stats_leq())
                && r@.map_values(|s: SerializableChannelStats| s@) == sortedv.map_values(
                |c: ChannelStatsV| spec_serializable(c),
            ));
        }
        r
    }
}

/// The `/logs/{id}` payload: both log queues of one channel, most recent
/// entry first.
#[derive(Debug)]
pub struct ChannelLogs {
    pub id: String,
    pub sent_logs: Vec<LogEntry>,
    pub received_logs: Vec<LogEntry>,
}

/// Mathematical image of a `ChannelLogs`.
#[verifier::ext_equal]
pub struct ChannelLogsV {
    pub id: Seq<char>,
    pub sent_logs: Seq<LogEntryV>,
    pub received_logs: Seq<LogEntryV>,
}

impl View for ChannelLogs {
    type V = ChannelLogsV;

    open spec fn view(&self) -> ChannelLogsV {
        ChannelLogsV {
            id: self.id@,
            sent_logs: logs_view(self.sent_logs@),
            received_logs: logs_view(self.received_logs@),
        }
    }
}

/// Descending order on log entries: newest (highest index) first.
pub open spec fn log_desc(a: LogEntryV, b: LogEntryV) -> bool {
    a.index >= b.index
}

/// The descending order as a relation value, for `sorted_by`.
pub open spec fn log_desc_leq() -> spec_fn(LogEntryV, LogEntryV) -> bool {
    |a: LogEntryV, b: LogEntryV| log_desc(a, b)
}

/// Insert a log entry into a descending-sorted vector, keeping it sorted.
fn insert_log_desc(v: &mut Vec<LogEntry>, x: LogEntry)
    requires
        vstd::relations::sorted_by(logs_view(old(v)@), log_desc_leq()),
    ensures
        vstd::relations::sorted_by(logs_view(final(v)@), log_desc_leq()),
        logs_view(final(v)@).to_multiset() == logs_view(old(v)@).to_multiset().insert(x@),
{
    broadcast use vstd::seq_lib::group_to_multiset_ensures;

    let ghost pre = logs_view(v@);
    let mut pos: usize = 0;
    while pos < v.len() && v[pos].index >= x.index
        invariant
            pos <= v@.len(),
            logs_view(v@) == pre,
            vstd::relations::sorted_by(pre, log_desc_leq()),
            forall|k: int| 0 <= k < pos ==> log_desc(pre[k], x@),
        decreases v@.len() - pos,
    {
        pos = pos + 1;
    }
    let ghost gx = x@;
    v.insert(pos, x);
    proof {
        let post = logs_view(v@);
        assert(post =~= pre.insert(pos as int, gx));
        assert forall|i: int, j: int| 0 <= i < j < post.len() implies #[trigger] log_desc_leq()(
            post[i],
            post[j],
        ) by {
            let p = pos as int;
            if i < p && j == p {
                assert(log_desc(pre[i], gx));
            } else if i == p && j > p {
                assert(post[j] == pre[j - 1]);
                if p < j - 1 {
                    assert(log_desc_leq()(pre[p], pre[j - 1]));
                }
            } else if i < p && j > p {
                if i == j - 1 {
                    assert(log_desc(pre[i], gx));
                } else {
                    assert(log_desc_leq()(pre[i], pre[j - 1]));
                }
            } else if i > p && j > p {
                assert(log_desc_leq()(pre[i - 1], pre[j - 1]));
            } else if i < p && j < p {
                assert(log_desc_leq()(pre[i], pre[j]));
            }
        }
        assert(post.remove(pos as int) =~= pre);
        assert(post[pos as int] == gx);
        assert(pre.to_multiset() =~= post.to_multiset().remove(gx));
        assert(post.contains(gx));
        assert(post.to_multiset().count(gx) > 0);
        assert(post.to_multiset() =~= pre.to_multiset().insert(gx));
    }
}

/// A copy of a log queue sorted by index descending.
fn sort_logs_desc(logs: &std::collections::VecDeque<LogEntry>) -> (r: Vec<LogEntry>)
    ensures
        vstd::relations::sorted_by(logs_view(r@), log_desc_leq()),
        logs_view(r@).to_multiset() == logs_view(logs@).to_multiset(),
{
    broadcast use vstd::seq_lib::group_to_multiset_ensures;

    let mut r: Vec<LogEntry> = Vec::new();
    let mut i: usize = 0;
    proof {
        assert(logs_view(r@) =~= Seq::<LogEntryV>::empty());
        assert(logs_view(logs@.take(0)) =~= Seq::<LogEntryV>::empty());
    }
    while i < logs.len()
        invariant
            i <= logs@.len(),
            vstd::relations::sorted_by(logs_view(r@), log_desc_leq()),
            logs_view(r@).to_multiset() == logs_view(logs@.take(i as int)).to_multiset(),
        decreases logs@.len() - i,
    {
        let x = logs[i].clone();
        proof {
            broadcast use vstd::seq_lib::group_to_multiset_ensures;

            let x0 = logs@[i as int]@;
            assert(logs_view(logs@.take(i + 1)) =~= logs_view(logs@.take(i as int)).push(x0));
            assert(logs_view(logs@.take(i as int)).push(x0).to_multiset() =~= logs_view(
                logs@.take(i as int),
            ).to_multiset().insert(x0));
            assert(x@ == x0);
        }
        insert_log_desc(&mut r, x);
        i = i + 1;
    }
    proof {
        assert(logs@.take(logs@.len() as int) =~= logs@);
    }
    r
}

impl StatsStore {
    /// The `/logs/{id}` payload: `None` when the id does not parse as a
    /// number or is unknown; otherwise both log queues of that channel,
    /// sorted by index descending.
    pub fn get_channel_logs(&self, channel_id: &str) -> (r: Option<ChannelLogs>)
        ensures
            match spec_parse_u64(channel_id@) {
                None => r is None,
                Some(v) => match find_id(self@.channels, v) {
                    None => r is None,
                    Some(i) => {
                        &&& r is Some
                        &&& r->Some_0@.id == channel_id@
                        &&& vstd::relations::sorted_by(r->Some_0@.sent_logs, log_desc_leq())
                        &&& r->Some_0@.sent_logs.to_multiset()
                            == self@.channels[i].sent_logs.to_multiset()
                        &&& vstd::relations::sorted_by(r->Some_0@.received_logs, log_desc_leq())
                        &&& r->Some_0@.received_logs.to_multiset()
                            == self@.channels[i].received_logs.to_multiset()
                    },
                },
            },
    {
        let id = match parse_u64(channel_id) {
            Some(v) => v,
            None => {
                return None;
            },
        };
        let i = match self.find_index(id) {
            Some(i) => i,
            None => {
                return None;
            },
        };
        let sent_logs = sort_logs_desc(&self.channels[i].sent_logs);
        let received_logs = sort_logs_desc(&self.channels[i].received_logs);
        Some(ChannelLogs { id: channel_id.to_owned(), sent_logs, received_logs })
    }
}

} // verus!

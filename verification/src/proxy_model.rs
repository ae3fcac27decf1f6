//! A transition model of one proxy pipeline, and its two theorems.
//!
//! A proxied channel is five stations in a row: the outer send queue, the
//! send-forwarder's hand, the inner channel, the recv-forwarder's hand, and
//! the outer receive queue. The model takes the steps the runtime can take
//! — an outer send, a forwarder moving one message, an outer receive — and
//! proves, for every reachable state, end-to-end FIFO and the bound on how
//! far the `MessageSent` count can run ahead of the `MessageReceived`
//! count.

use vstd::prelude::*;

verus! {

/// The whole state of one proxy pipeline. `cap` is the queue capacity for
/// a bounded channel, `None` for an unbounded one. `sent_events` and
/// `recv_events` count the `MessageSent` / `MessageReceived` events the
/// two forwarders have emitted.
#[verifier::ext_equal]
pub struct ProxyModel<T> {
    pub cap: Option<nat>,
    pub outer_sent: Seq<T>,
    pub to_inner: Seq<T>,
    pub send_hand: Option<T>,
    pub inner: Seq<T>,
    pub recv_hand: Option<T>,
    pub from_inner: Seq<T>,
    pub outer_recv: Seq<T>,
    pub sent_events: nat,
    pub recv_events: nat,
}

/// One step the runtime can take.
pub enum ProxyStep<T> {
    /// The outer sender enqueues a message.
    OuterSend(T),
    /// The send-forwarder takes a message from the outer queue in hand.
    ForwarderTake,
    /// The send-forwarder completes its inner send; `MessageSent` fires.
    ForwarderPut,
    /// The recv-forwarder takes a message from the inner channel in hand.
    RecvTake,
    /// The recv-forwarder completes its outer send; `MessageReceived`
    /// fires.
    RecvPut,
    /// The outer receiver dequeues a message.
    OuterRecv,
}

/// A hand as a sequence of at most one message.
pub open spec fn opt_seq<T>(o: Option<T>) -> Seq<T> {
    match o {
        Some(m) => seq![m],
        None => Seq::empty(),
    }
}

/// Whether a queue of length `n` can take one more message.
pub open spec fn has_room(cap: Option<nat>, n: nat) -> bool {
    match cap {
        Some(c) => n < c,
        None => true,
    }
}

/// The pipeline before anything happened.
pub open spec fn proxy_init<T>(cap: Option<nat>) -> ProxyModel<T> {
    ProxyModel {
        cap,
        outer_sent: Seq::empty(),
        to_inner: Seq::empty(),
        send_hand: None,
        inner: Seq::empty(),
        recv_hand: None,
        from_inner: Seq::empty(),
        outer_recv: Seq::empty(),
        sent_events: 0,
        recv_events: 0,
    }
}

/// The transition relation: which step turns `pre` into `post`.
pub open spec fn proxy_next<T>(pre: ProxyModel<T>, post: ProxyModel<T>, step: ProxyStep<T>) -> bool {
    match step {
        ProxyStep::OuterSend(m) => {
            &&& has_room(pre.cap, pre.to_inner.len())
            &&& post == ProxyModel {
                outer_sent: pre.outer_sent.push(m),
                to_inner: pre.to_inner.push(m),
                ..pre
            }
        },
        ProxyStep::ForwarderTake => {
            &&& pre.to_inner.len() > 0
            &&& pre.send_hand is None
            &&& post == ProxyModel {
                send_hand: Some(pre.to_inner[0]),
                to_inner: pre.to_inner.drop_first(),
                ..pre
            }
        },
        ProxyStep::ForwarderPut => {
            &&& pre.send_hand is Some
            &&& has_room(pre.cap, pre.inner.len())
            &&& post == ProxyModel {
                send_hand: None,
                inner: pre.inner.push(pre.send_hand->Some_0),
                sent_events: pre.sent_events + 1,
                ..pre
            }
        },
        ProxyStep::RecvTake => {
            &&& pre.inner.len() > 0
            &&& pre.recv_hand is None
            &&& post == ProxyModel {
                recv_hand: Some(pre.inner[0]),
                inner: pre.inner.drop_first(),
                ..pre
            }
        },
        ProxyStep::RecvPut => {
            &&& pre.recv_hand is Some
            &&& has_room(pre.cap, pre.from_inner.len())
            &&& post == ProxyModel {
                recv_hand: None,
                from_inner: pre.from_inner.push(pre.recv_hand->Some_0),
                recv_events: pre.recv_events + 1,
                ..pre
            }
        },
        ProxyStep::OuterRecv => {
            &&& pre.from_inner.len() > 0
            &&& post == ProxyModel {
                outer_recv: pre.outer_recv.push(pre.from_inner[0]),
                from_inner: pre.from_inner.drop_first(),
                ..pre
            }
        },
    }
}

/// The pipeline invariant: every message the outer sender enqueued is at
/// exactly one station, in order; the event counters count the messages at
/// or past the station they fire at; bounded queues respect the capacity.
pub open spec fn proxy_inv<T>(s: ProxyModel<T>) -> bool {
    &&& s.outer_sent == s.outer_recv + s.from_inner + opt_seq(s.recv_hand) + s.inner + opt_seq(
        s.send_hand,
    ) + s.to_inner
    &&& s.sent_events == s.outer_recv.len() + s.from_inner.len() + opt_seq(s.recv_hand).len()
        + s.inner.len()
    &&& s.recv_events == s.outer_recv.len() + s.from_inner.len()
    &&& match s.cap {
        Some(c) => s.to_inner.len() <= c && s.inner.len() <= c && s.from_inner.len() <= c,
        None => true,
    }
}

/// The initial state satisfies the invariant.
pub proof fn lemma_proxy_init_inv<T>(cap: Option<nat>)
    ensures
        proxy_inv(proxy_init::<T>(cap)),
{
    let s = proxy_init::<T>(cap);
    assert(s.outer_sent =~= s.outer_recv + s.from_inner + opt_seq(s.recv_hand) + s.inner + opt_seq(
        s.send_hand,
    ) + s.to_inner);
}

/// Every step preserves the invariant.
pub proof fn lemma_proxy_next_inv<T>(pre: ProxyModel<T>, post: ProxyModel<T>, step: ProxyStep<T>)
    requires
        proxy_inv(pre),
        proxy_next(pre, post, step),
    ensures
        proxy_inv(post),
        post.cap == pre.cap,
{
    match step {
        ProxyStep::OuterSend(m) => {
            assert(post.outer_sent =~= post.outer_recv + post.from_inner + opt_seq(post.recv_hand)
                + post.inner + opt_seq(post.send_hand) + post.to_inner);
        },
        ProxyStep::ForwarderTake => {
            assert(pre.to_inner =~= opt_seq(Some(pre.to_inner[0])) + pre.to_inner.drop_first());
            assert(post.outer_sent =~= post.outer_recv + post.from_inner + opt_seq(post.recv_hand)
                + post.inner + opt_seq(post.send_hand) + post.to_inner);
        },
        ProxyStep::ForwarderPut => {
            assert(post.outer_sent =~= post.outer_recv + post.from_inner + opt_seq(post.recv_hand)
                + post.inner + opt_seq(post.send_hand) + post.to_inner);
        },
        ProxyStep::RecvTake => {
            assert(pre.inner =~= opt_seq(Some(pre.inner[0])) + pre.inner.drop_first());
            assert(post.outer_sent =~= post.outer_recv + post.from_inner + opt_seq(post.recv_hand)
                + post.inner + opt_seq(post.send_hand) + post.to_inner);
        },
        ProxyStep::RecvPut => {
            assert(post.outer_sent =~= post.outer_recv + post.from_inner + opt_seq(post.recv_hand)
                + post.inner + opt_seq(post.send_hand) + post.to_inner);
        },
        ProxyStep::OuterRecv => {
            assert(pre.from_inner =~= seq![pre.from_inner[0]] + pre.from_inner.drop_first());
            assert(post.outer_sent =~= post.outer_recv + post.from_inner + opt_seq(post.recv_hand)
                + post.inner + opt_seq(post.send_hand) + post.to_inner);
        },
    }
}

/// `s` is reachable from `s0` by the given steps.
pub open spec fn proxy_reaches<T>(
    s0: ProxyModel<T>,
    steps: Seq<ProxyStep<T>>,
    s: ProxyModel<T>,
) -> bool
    decreases steps.len(),
{
    if steps.len() == 0 {
        s == s0
    } else {
        exists|mid: ProxyModel<T>|
            #[trigger] proxy_next(s0, mid, steps[0]) && proxy_reaches(mid, steps.drop_first(), s)
    }
}

/// The invariant holds of every reachable state.
pub proof fn lemma_proxy_reaches_inv<T>(s0: ProxyModel<T>, steps: Seq<ProxyStep<T>>, s: ProxyModel<T>)
    requires
        proxy_inv(s0),
        proxy_reaches(s0, steps, s),
    ensures
        proxy_inv(s),
        s.cap == s0.cap,
    decreases steps.len(),
{
    if steps.len() > 0 {
        let mid = choose|mid: ProxyModel<T>|
            #[trigger] proxy_next(s0, mid, steps[0]) && proxy_reaches(mid, steps.drop_first(), s);
        lemma_proxy_next_inv(s0, mid, steps[0]);
        lemma_proxy_reaches_inv(mid, steps.drop_first(), s);
    }
}

/// End-to-end FIFO: in every reachable state, what the outer receiver has
/// seen is exactly a prefix of what the outer sender enqueued, in order.
pub proof fn lemma_proxy_fifo<T>(cap: Option<nat>, steps: Seq<ProxyStep<T>>, s: ProxyModel<T>)
    requires
        proxy_reaches(proxy_init::<T>(cap), steps, s),
    ensures
        s.outer_recv == s.outer_sent.take(s.outer_recv.len() as int),
        s.outer_recv.len() <= s.outer_sent.len(),
{
    lemma_proxy_init_inv::<T>(cap);
    lemma_proxy_reaches_inv(proxy_init::<T>(cap), steps, s);
    assert(s.outer_recv =~= s.outer_sent.take(s.outer_recv.len() as int));
}

/// Count consistency for a bounded proxy of capacity `c`: the received
/// count never exceeds the sent count, and the sent count can run ahead by
/// at most the inner queue plus the one message in the recv-forwarder's
/// hand.
pub proof fn lemma_proxy_counts_bounded<T>(c: nat, steps: Seq<ProxyStep<T>>, s: ProxyModel<T>)
    requires
        proxy_reaches(proxy_init::<T>(Some(c)), steps, s),
    ensures
        s.recv_events <= s.sent_events,
        s.sent_events <= s.recv_events + c + 1,
{
    lemma_proxy_init_inv::<T>(Some(c));
    lemma_proxy_reaches_inv(proxy_init::<T>(Some(c)), steps, s);
    assert(opt_seq(s.recv_hand).len() <= 1);
}

/// Count consistency for an unbounded proxy: received never exceeds sent.
pub proof fn lemma_proxy_counts_unbounded<T>(steps: Seq<ProxyStep<T>>, s: ProxyModel<T>)
    requires
        proxy_reaches(proxy_init::<T>(None), steps, s),
    ensures
        s.recv_events <= s.sent_events,
{
    lemma_proxy_init_inv::<T>(None);
    lemma_proxy_reaches_inv(proxy_init::<T>(None), steps, s);
}

/// Count consistency for a one-shot proxy: at most one message ever enters
/// the pipeline, so the sent count runs ahead of the received count by at
/// most one.
pub proof fn lemma_proxy_counts_oneshot<T>(steps: Seq<ProxyStep<T>>, s: ProxyModel<T>)
    requires
        proxy_reaches(proxy_init::<T>(Some(1)), steps, s),
        s.outer_sent.len() <= 1,
    ensures
        s.recv_events <= s.sent_events,
        s.sent_events <= s.recv_events + 1,
{
    lemma_proxy_init_inv::<T>(Some(1));
    lemma_proxy_reaches_inv(proxy_init::<T>(Some(1)), steps, s);
    assert(s.outer_sent.len() == s.outer_recv.len() + s.from_inner.len() + opt_seq(
        s.recv_hand,
    ).len() + s.inner.len() + opt_seq(s.send_hand).len() + s.to_inner.len());
}

} // verus!

//! The forwarder protocol: what each proxy task decides at every step.
//!
//! A proxy pair is two background tasks. The send-forwarder relays messages
//! from the outer sender to the inner channel; the recv-forwarder relays
//! from the inner channel to the outer receiver. The runtime loop around
//! each task only performs channel I/O: every decision — what to do with a
//! message, when to stop, which close signal to raise, and which events to
//! emit — is taken here, with the transition table in the contracts.

use crate::collector::StatsEvent;
use vstd::prelude::*;

verus! {

/// What a send-forwarder observes at its select point.
pub enum SendFwdEvent<T> {
    /// A message from the outer sender.
    OuterMsg(T),
    /// The outer sender was dropped: the queue reports end-of-stream.
    OuterClosed,
    /// The peer recv-forwarder signalled that the outer receiver is gone.
    CloseSignal,
}

/// What the send-forwarder instructs the runtime to do next.
pub enum SendFwdAction<T> {
    /// Send this message into the inner channel, then report the result
    /// through `on_inner_send_result`.
    ForwardInner(T),
    /// Leave the loop; when `close_outer` is set, close the outer queue
    /// first so that further outer sends fail.
    Stop { close_outer: bool },
}

/// The state of a send-forwarder: its channel id and whether it has left
/// its loop.
pub struct SendForwarder {
    pub id: u64,
    pub done: bool,
}

impl SendForwarder {
    pub fn new(id: u64) -> (r: Self)
        ensures
            r.id == id,
            !r.done,
    {
        SendForwarder { id, done: false }
    }

    /// One select step: a message is forwarded on; end-of-stream stops the
    /// task; a close signal stops it and closes the outer queue.
    pub fn on_select<T>(&mut self, ev: SendFwdEvent<T>) -> (a: SendFwdAction<T>)
        requires
            !old(self).done,
        ensures
            final(self).id == old(self).id,
            match ev {
                SendFwdEvent::OuterMsg(m) => a == SendFwdAction::ForwardInner(m) && !final(self).done,
                SendFwdEvent::OuterClosed => a == (SendFwdAction::Stop::<T> {
                    close_outer: false,
                }) && final(self).done,
                SendFwdEvent::CloseSignal => a == (SendFwdAction::Stop::<T> { close_outer: true })
                    && final(self).done,
            },
    {
        match ev {
            SendFwdEvent::OuterMsg(m) => SendFwdAction::ForwardInner(m),
            SendFwdEvent::OuterClosed => {
                self.done = true;
                SendFwdAction::Stop { close_outer: false }
            },
            SendFwdEvent::CloseSignal => {
                self.done = true;
                SendFwdAction::Stop { close_outer: true }
            },
        }
    }

    /// After an inner send: on success the `MessageSent` event is emitted
    /// and the loop goes on; on failure (inner receiver gone) the task
    /// stops, closing the outer queue.
    pub fn on_inner_send_result(&mut self, ok: bool, log: Option<String>, timestamp: u64) -> (ev:
        Option<StatsEvent>)
        requires
            !old(self).done,
        ensures
            final(self).id == old(self).id,
            final(self).done == !ok,
            ok ==> ev == Some(
                StatsEvent::MessageSent { id: old(self).id, log, timestamp },
            ) && ev->Some_0@ == (crate::collector::StatsEventV::MessageSent {
                id: old(self).id,
                log: match log {
                    Some(l) => Some(l@),
                    None => None::<Seq<char>>,
                },
                timestamp,
            }),
            !ok ==> ev is None,
    {
        if ok {
            Some(StatsEvent::MessageSent { id: self.id, log, timestamp })
        } else {
            self.done = true;
            None
        }
    }

    /// The single event emitted when the task exits its loop.
    pub fn exit_event(&self) -> (ev: StatsEvent)
        requires
            self.done,
        ensures
            ev == (StatsEvent::Closed { id: self.id }),
    {
        StatsEvent::Closed { id: self.id }
    }
}

/// What a recv-forwarder observes at its select point.
pub enum RecvFwdEvent<T> {
    /// A message from the inner channel.
    InnerMsg(T),
    /// The inner sender was dropped: end-of-stream.
    InnerClosed,
    /// The outer receiver was dropped.
    OuterReceiverClosed,
}

/// What the recv-forwarder instructs the runtime to do next.
pub enum RecvFwdAction<T> {
    /// Send this message to the outer receiver, then report the result
    /// through `on_outer_send_result`.
    ForwardOuter(T),
    /// Leave the loop; when `signal_peer` is set, fire the one-use close
    /// signal towards the send-forwarder first.
    Stop { signal_peer: bool },
}

/// The state of a recv-forwarder.
pub struct RecvForwarder {
    pub id: u64,
    pub done: bool,
}

impl RecvForwarder {
    pub fn new(id: u64) -> (r: Self)
        ensures
            r.id == id,
            !r.done,
    {
        RecvForwarder { id, done: false }
    }

    /// One select step: a message is forwarded on; end-of-stream stops the
    /// task quietly; a dropped outer receiver stops it and signals the
    /// send-forwarder.
    pub fn on_select<T>(&mut self, ev: RecvFwdEvent<T>) -> (a: RecvFwdAction<T>)
        requires
            !old(self).done,
        ensures
            final(self).id == old(self).id,
            match ev {
                RecvFwdEvent::InnerMsg(m) => a == RecvFwdAction::ForwardOuter(m) && !final(self).done,
                RecvFwdEvent::InnerClosed => a == (RecvFwdAction::Stop::<T> {
                    signal_peer: false,
                }) && final(self).done,
                RecvFwdEvent::OuterReceiverClosed => a == (RecvFwdAction::Stop::<T> {
                    signal_peer: true,
                }) && final(self).done,
            },
    {
        match ev {
            RecvFwdEvent::InnerMsg(m) => RecvFwdAction::ForwardOuter(m),
            RecvFwdEvent::InnerClosed => {
                self.done = true;
                RecvFwdAction::Stop { signal_peer: false }
            },
            RecvFwdEvent::OuterReceiverClosed => {
                self.done = true;
                RecvFwdAction::Stop { signal_peer: true }
            },
        }
    }

    /// After an outer send: on success the `MessageReceived` event is
    /// emitted; on failure (outer receiver gone) the task stops and must
    /// signal the send-forwarder.
    pub fn on_outer_send_result(&mut self, ok: bool, timestamp: u64) -> (r: (
        Option<StatsEvent>,
        bool,
    ))
        requires
            !old(self).done,
        ensures
            final(self).id == old(self).id,
            final(self).done == !ok,
            ok ==> r.0 == Some(StatsEvent::MessageReceived { id: old(self).id, timestamp }) && !r.1,
            !ok ==> r.0 is None && r.1,
    {
        if ok {
            (Some(StatsEvent::MessageReceived { id: self.id, timestamp }), false)
        } else {
            self.done = true;
            (None, true)
        }
    }

    /// The single event emitted when the task exits its loop.
    pub fn exit_event(&self) -> (ev: StatsEvent)
        requires
            self.done,
        ensures
            ev == (StatsEvent::Closed { id: self.id }),
    {
        StatsEvent::Closed { id: self.id }
    }
}

/// The state of a one-shot forwarder on either side: whether its single
/// message went through. A completed side suppresses its `Closed` event,
/// so a delivered one-shot ends `Notified`, an aborted one ends `Closed`.
pub struct OneshotForwarder {
    pub id: u64,
    pub delivered: bool,
}

impl OneshotForwarder {
    pub fn new(id: u64) -> (r: Self)
        ensures
            r.id == id,
            !r.delivered,
    {
        OneshotForwarder { id, delivered: false }
    }

    /// Send side, after the single inner send: on success `MessageSent`
    /// then `Notified` are emitted, in that order.
    pub fn on_send_result(&mut self, ok: bool, log: Option<String>, timestamp: u64) -> (evs: (
        Option<StatsEvent>,
        Option<StatsEvent>,
    ))
        requires
            !old(self).delivered,
        ensures
            final(self).id == old(self).id,
            final(self).delivered == ok,
            ok ==> evs.0 == Some(StatsEvent::MessageSent { id: old(self).id, log, timestamp })
                && evs.1 == Some(StatsEvent::Notified { id: old(self).id }),
            !ok ==> evs.0 is None && evs.1 is None,
    {
        if ok {
            self.delivered = true;
            (
                Some(StatsEvent::MessageSent { id: self.id, log, timestamp }),
                Some(StatsEvent::Notified { id: self.id }),
            )
        } else {
            (None, None)
        }
    }

    /// Receive side, after forwarding the single message towards the outer
    /// receiver.
    pub fn on_recv_result(&mut self, ok: bool, timestamp: u64) -> (ev: Option<StatsEvent>)
        requires
            !old(self).delivered,
        ensures
            final(self).id == old(self).id,
            final(self).delivered == ok,
            ok ==> ev == Some(StatsEvent::MessageReceived { id: old(self).id, timestamp }),
            !ok ==> ev is None,
    {
        if ok {
            self.delivered = true;
            Some(StatsEvent::MessageReceived { id: self.id, timestamp })
        } else {
            None
        }
    }

    /// The event emitted when the task exits: `Closed` only if this side
    /// never delivered.
    pub fn exit_event(&self) -> (ev: Option<StatsEvent>)
        ensures
            self.delivered ==> ev is None,
            !self.delivered ==> ev == Some(StatsEvent::Closed { id: self.id }),
    {
        if self.delivered {
            None
        } else {
            Some(StatsEvent::Closed { id: self.id })
        }
    }
}

} // verus!

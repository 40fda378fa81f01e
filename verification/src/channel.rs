//! The channel itself: a queue of payloads, the count of live sender
//! clones, and the operations that the handles of the channel stand for.
//!
//! The channel is one value; a host that shares it between threads puts it
//! behind its own lock. A [`Sender`] is the capability of one producer. It
//! is cloned and dropped through the channel, which keeps count: the channel
//! closes exactly when the last clone has been dropped with
//! [`Channel::drop_sender`].

use crate::attempt::Attempt;
use crate::channel_state::{lemma_apply_inv, lemma_drain_inv, lemma_fresh_inv};
use crate::channel_state::{ChannelOp, ChannelState, Message, RecvVerdict, SendVerdict};
use std::collections::VecDeque;
use vstd::prelude::*;

verus! {

/// The capability of one producer: a handle with the id that its channel
/// gave it. A channel knows its senders by their ids alone, so a sender is
/// to be used with the channel that issued it and with no other.
#[derive(Debug)]
pub struct Sender {
    id: usize,
}

impl View for Sender {
    type V = nat;

    closed spec fn view(&self) -> nat {
        self.id as nat
    }
}

impl Sender {
    /// The id of this clone: 0 for the first sender of a channel, and the
    /// next free number for each clone.
    pub fn id(&self) -> (r: usize)
        ensures
            r == self@,
    {
        self.id
    }
}

/// The receiver is gone; the payload that could not be sent comes back.
#[derive(Debug, PartialEq, Eq)]
pub struct SendError<T>(pub T);

/// What one attempt to send came to.
#[derive(Debug, PartialEq, Eq)]
pub enum SendAttempt<T> {
    /// The send finished: the payload is in the queue, or the receiver is
    /// gone and the payload comes back in the error.
    Ready(Result<(), SendError<T>>),
    /// The queue is full: the producer has to wait for the consumer. The
    /// payload comes back unsent.
    WouldBlock(T),
}

/// What the receiver took from the channel in one sweep.
#[derive(Debug, PartialEq, Eq)]
pub struct Drained<T> {
    /// The payloads, oldest first.
    pub items: Vec<T>,
    /// Whether the stream has ended: no sender is left, so nothing will follow.
    pub ended: bool,
}

/// A multi-producer, single-consumer channel.
pub struct Channel<T> {
    queue: VecDeque<T>,
    live: Vec<bool>,
    live_count: usize,
    receiver_alive: bool,
    capacity: Option<usize>,
    state: Ghost<ChannelState<T>>,
}

impl<T> View for Channel<T> {
    type V = ChannelState<T>;

    closed spec fn view(&self) -> ChannelState<T> {
        self.state@
    }
}

/// The payloads of a sequence of messages, in order.
pub open spec fn payloads<T>(log: Seq<Message<T>>) -> Seq<T> {
    Seq::new(log.len(), |i: int| log[i].payload)
}

impl<T> Channel<T> {
    /// Whether the fields hold what the abstract state says.
    pub closed spec fn represents(&self) -> bool {
        let s = self.state@;
        &&& self.queue@ =~= payloads(s.queue)
        &&& self.live@.len() == s.issued
        &&& forall|id: int|
            0 <= id < self.live@.len() ==> self.live@[id] == s.senders.contains(id as nat)
        &&& self.live_count == s.senders.len()
        &&& self.receiver_alive == s.receiver_alive
        &&& s.capacity == match self.capacity {
            Some(c) => Some(c as nat),
            None => None,
        }
    }

    /// Well-formed: the state satisfies the channel invariant and the fields
    /// represent it. Every constructor establishes this and every operation
    /// keeps it.
    pub open spec fn wf(&self) -> bool {
        self@.inv() && self.represents()
    }

    fn with_capacity(capacity: Option<usize>) -> (r: (Channel<T>, Sender))
        ensures
            r.0.wf(),
            r.0@ == ChannelState::<T>::fresh(
                match capacity {
                    Some(c) => Some(c as nat),
                    None => None,
                },
            ),
            r.1@ == 0,
    {
        let ghost bound: Option<nat> = match capacity {
            Some(c) => Some(c as nat),
            None => None,
        };
        let mut live: Vec<bool> = Vec::new();
        live.push(true);
        let channel = Channel {
            queue: VecDeque::new(),
            live,
            live_count: 1,
            receiver_alive: true,
            capacity,
            state: Ghost(ChannelState::fresh(bound)),
        };
        proof {
            lemma_fresh_inv::<T>(bound);
            assert(channel.queue@ =~= payloads(channel.state@.queue));
        }
        (channel, Sender { id: 0 })
    }

    /// A channel without a bound, and its first sender: a send never has to
    /// wait.
    pub fn new() -> (r: (Channel<T>, Sender))
        ensures
            r.0.wf(),
            r.0@ == ChannelState::<T>::fresh(None),
            r.1@ == 0,
    {
        Channel::with_capacity(None)
    }

    /// A channel whose queue holds at most `capacity` messages, and its
    /// first sender: a send to a full queue has to wait for the consumer.
    pub fn bounded(capacity: usize) -> (r: (Channel<T>, Sender))
        ensures
            r.0.wf(),
            r.0@ == ChannelState::<T>::fresh(Some(capacity as nat)),
            r.1@ == 0,
    {
        Channel::with_capacity(Some(capacity))
    }

    /// Whether `sender` is a live handle of this channel.
    pub fn is_live(&self, sender: &Sender) -> (r: bool)
        requires
            self.wf(),
        ensures
            r == self@.senders.contains(sender@),
    {
        sender.id < self.live.len() && self.live[sender.id]
    }

    /// The number of live sender clones.
    pub fn live_senders(&self) -> (r: usize)
        requires
            self.wf(),
        ensures
            r == self@.senders.len(),
    {
        self.live_count
    }

    /// Whether the receiver is still there.
    pub fn has_receiver(&self) -> (r: bool)
        requires
            self.wf(),
        ensures
            r == self@.receiver_alive,
    {
        self.receiver_alive
    }

    /// Whether the channel is closed: the last sender clone has been dropped.
    pub fn is_closed(&self) -> (r: bool)
        requires
            self.wf(),
        ensures
            r == self@.is_closed(),
    {
        proof {
            if self.state@.senders.len() == 0 {
                self.state@.senders.lemma_len0_is_empty();
            }
        }
        self.live_count == 0
    }

    /// The number of messages in flight.
    pub fn len(&self) -> (r: usize)
        requires
            self.wf(),
        ensures
            r == self@.queue.len(),
    {
        self.queue.len()
    }

    /// A clone of `sender`: a new live handle with the next free id.
    pub fn clone_sender(&mut self, sender: &Sender) -> (r: Sender)
        requires
            old(self).wf(),
            old(self)@.senders.contains(sender@),
        ensures
            final(self).wf(),
            final(self)@ == old(self)@.after_clone(),
            r@ == old(self)@.issued,
    {
        let id = self.live.len();
        proof {
            lemma_apply_inv(self.state@, ChannelOp::CloneSender { from: sender@ });
        }
        self.live.push(true);
        assert(self.live_count < self.live.len());
        self.live_count = self.live_count + 1;
        self.state = Ghost(self.state@.after_clone());
        Sender { id }
    }

    /// Ends the life of `sender`. When it was the last clone the channel
    /// closes.
    pub fn drop_sender(&mut self, sender: Sender)
        requires
            old(self).wf(),
            old(self)@.senders.contains(sender@),
        ensures
            final(self).wf(),
            final(self)@ == old(self)@.after_drop_sender(sender@),
    {
        proof {
            lemma_apply_inv(self.state@, ChannelOp::DropSender { id: sender@ });
        }
        self.live.set(sender.id, false);
        self.live_count = self.live_count - 1;
        self.state = Ghost(self.state@.after_drop_sender(sender@));
    }

    /// Ends the life of the receiver. From now on every send fails.
    pub fn drop_receiver(&mut self)
        requires
            old(self).wf(),
        ensures
            final(self).wf(),
            final(self)@ == old(self)@.after_drop_receiver(),
    {
        self.receiver_alive = false;
        self.state = Ghost(self.state@.after_drop_receiver());
    }

    /// Tries to send `value` through `sender`. With the receiver gone the
    /// send fails at once and hands the value back, whatever the queue holds.
    /// Else, with the queue full, the producer would have to wait: nothing
    /// changes and the value comes back. Else the value is appended to the
    /// queue.
    pub fn send(&mut self, sender: &Sender, value: T) -> (r: SendAttempt<T>)
        requires
            old(self).wf(),
            old(self)@.senders.contains(sender@),
        ensures
            final(self).wf(),
            final(self)@ == old(self)@.after_send(sender@, value),
            r == match old(self)@.send_verdict() {
                SendVerdict::Accepted => SendAttempt::Ready(Ok(())),
                SendVerdict::Full => SendAttempt::WouldBlock(value),
                SendVerdict::Disconnected => SendAttempt::Ready(Err(SendError(value))),
            },
    {
        if !self.receiver_alive {
            return SendAttempt::Ready(Err(SendError(value)));
        }
        let full = match self.capacity {
            Some(c) => self.queue.len() >= c,
            None => false,
        };
        if full {
            return SendAttempt::WouldBlock(value);
        }
        proof {
            lemma_apply_inv(self.state@, ChannelOp::Send { from: sender@, payload: value });
        }
        self.state = Ghost(self.state@.after_send(sender@, value));
        self.queue.push_back(value);
        assert(self.queue@ =~= payloads(self.state@.queue));
        SendAttempt::Ready(Ok(()))
    }

    /// Tries to take the oldest message. With nothing in flight, the
    /// attempt reports the end of the stream (`None`) if and only if no
    /// sender is left, and else that the consumer would have to wait.
    pub fn recv(&mut self) -> (r: Attempt<Option<T>>)
        requires
            old(self).wf(),
            old(self)@.receiver_alive,
        ensures
            final(self).wf(),
            final(self)@ == old(self)@.after_recv(),
            r == match old(self)@.recv_verdict() {
                RecvVerdict::Item(payload) => Attempt::Ready(Some(payload)),
                RecvVerdict::Empty => Attempt::WouldBlock,
                RecvVerdict::End => Attempt::Ready(None),
            },
            r == Attempt::Ready(None::<T>) <==> old(self)@.is_ended(),
    {
        proof {
            lemma_apply_inv(self.state@, ChannelOp::Recv);
            if self.state@.senders.len() == 0 {
                self.state@.senders.lemma_len0_is_empty();
            }
        }
        match self.queue.pop_front() {
            Some(payload) => {
                assert(payload == self.state@.queue[0].payload);
                self.state = Ghost(self.state@.after_recv());
                assert(self.queue@ =~= payloads(self.state@.queue));
                Attempt::Ready(Some(payload))
            },
            None => {
                if self.live_count == 0 {
                    Attempt::Ready(None)
                } else {
                    Attempt::WouldBlock
                }
            },
        }
    }

    /// Takes everything that is in flight, oldest first, and says whether
    /// the stream has ended with it. Where it has not, a sender is still
    /// alive and the consumer would have to wait for more.
    pub fn iterate(&mut self) -> (r: Drained<T>)
        requires
            old(self).wf(),
            old(self)@.receiver_alive,
        ensures
            final(self).wf(),
            final(self)@ == old(self)@.after_drain(),
            r.items@ == payloads(old(self)@.queue),
            r.ended == old(self)@.is_closed(),
    {
        let mut items: Vec<T> = Vec::new();
        let ended = self.is_closed();
        let ghost start = self.state@;
        while self.queue.len() > 0
            invariant
                self.wf(),
                start.inv(),
                start.receiver_alive,
                self@.queue =~= start.queue.skip(items@.len() as int),
                items@.len() <= start.queue.len(),
                items@ =~= payloads(start.queue.take(items@.len() as int)),
                self@.delivered =~= start.delivered + start.queue.take(items@.len() as int),
                self@.senders == start.senders,
                self@.issued == start.issued,
                self@.receiver_alive == start.receiver_alive,
                self@.capacity == start.capacity,
                self@.sent == start.sent,
            decreases self.queue@.len(),
        {
            proof {
                lemma_apply_inv(self.state@, ChannelOp::Recv);
            }
            let ghost before = self.state@;
            match self.queue.pop_front() {
                Some(payload) => {
                    self.state = Ghost(self.state@.after_recv());
                    assert(self.queue@ =~= payloads(self.state@.queue));
                    items.push(payload);
                },
                None => {},
            }
        }
        proof {
            lemma_drain_inv(start);
            assert(start.queue.take(items@.len() as int) =~= start.queue);
            assert(self@.queue =~= Seq::empty());
            assert(self@.delivered =~= start.after_drain().delivered);
        }
        Drained { items, ended }
    }
}

} // verus!

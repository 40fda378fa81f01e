//! The multi-producer, single-consumer channel as a state machine over
//! mathematical values, and the laws that hold of every run of it.

use vstd::prelude::*;

verus! {

/// A payload together with the sender clone it came from.
pub struct Message<T> {
    /// The id of the sender clone that sent it.
    pub from: nat,
    /// What was sent.
    pub payload: T,
}

/// The whole state of one channel. `sent` and `delivered` are the history of
/// the channel: every message it ever accepted and every message it ever
/// handed to the receiver, each in the order in which that happened.
pub struct ChannelState<T> {
    /// The messages in flight, oldest first.
    pub queue: Seq<Message<T>>,
    /// The ids of the sender clones that are alive.
    pub senders: Set<nat>,
    /// How many sender ids were handed out so far; the next clone gets this id.
    pub issued: nat,
    /// Whether the receiver is still there.
    pub receiver_alive: bool,
    /// The most messages the queue holds, if it is bounded.
    pub capacity: Option<nat>,
    /// Every message accepted so far.
    pub sent: Seq<Message<T>>,
    /// Every message handed to the receiver so far.
    pub delivered: Seq<Message<T>>,
}

/// The outcome of an attempt to send, as the state machine sees it.
pub enum SendVerdict {
    /// The message was appended to the queue.
    Accepted,
    /// The queue is full and the receiver alive: the producer has to wait.
    Full,
    /// The receiver is gone.
    Disconnected,
}

/// The outcome of an attempt to receive, as the state machine sees it.
pub enum RecvVerdict<T> {
    /// The oldest message in flight.
    Item(T),
    /// Nothing in flight, but a sender is alive: the consumer has to wait.
    Empty,
    /// Nothing in flight and no sender left: the stream has ended.
    End,
}

/// One move of a party that holds a handle of the channel.
pub enum ChannelOp<T> {
    /// Sender clone `from` tries to send `payload`.
    Send { from: nat, payload: T },
    /// The receiver tries to take one message.
    Recv,
    /// Sender clone `from` is cloned.
    CloneSender { from: nat },
    /// Sender clone `id` is dropped.
    DropSender { id: nat },
    /// The receiver is dropped.
    DropReceiver,
}

impl<T> ChannelState<T> {
    /// A new channel: nothing in flight, one sender with id 0, the receiver alive.
    pub open spec fn fresh(capacity: Option<nat>) -> Self {
        ChannelState {
            queue: Seq::empty(),
            senders: Set::empty().insert(0nat),
            issued: 1,
            receiver_alive: true,
            capacity,
            sent: Seq::empty(),
            delivered: Seq::empty(),
        }
    }

    /// Whether the queue takes one more message.
    pub open spec fn has_room(self) -> bool {
        match self.capacity {
            Some(c) => self.queue.len() < c,
            None => true,
        }
    }

    /// Closed: the last sender clone has been dropped.
    pub open spec fn is_closed(self) -> bool {
        self.senders.is_empty()
    }

    /// Ended: closed, and nothing is left in flight.
    pub open spec fn is_ended(self) -> bool {
        self.is_closed() && self.queue.len() == 0
    }

    /// What an attempt to send comes to. A missing receiver is reported even
    /// when the queue is full, so a send to a dropped receiver never waits.
    pub open spec fn send_verdict(self) -> SendVerdict {
        if !self.receiver_alive {
            SendVerdict::Disconnected
        } else if !self.has_room() {
            SendVerdict::Full
        } else {
            SendVerdict::Accepted
        }
    }

    /// The state after sender `from` tried to send `payload`.
    pub open spec fn after_send(self, from: nat, payload: T) -> Self {
        if self.send_verdict() is Accepted {
            let m = Message { from, payload };
            ChannelState { queue: self.queue.push(m), sent: self.sent.push(m), ..self }
        } else {
            self
        }
    }

    /// What an attempt to receive comes to.
    pub open spec fn recv_verdict(self) -> RecvVerdict<T> {
        if self.queue.len() > 0 {
            RecvVerdict::Item(self.queue[0].payload)
        } else if self.is_closed() {
            RecvVerdict::End
        } else {
            RecvVerdict::Empty
        }
    }

    /// The state after the receiver tried to take one message.
    pub open spec fn after_recv(self) -> Self {
        if self.queue.len() > 0 {
            ChannelState {
                queue: self.queue.drop_first(),
                delivered: self.delivered.push(self.queue[0]),
                ..self
            }
        } else {
            self
        }
    }

    /// The state after the receiver took everything that is in flight.
    pub open spec fn after_drain(self) -> Self {
        ChannelState {
            queue: Seq::empty(),
            delivered: self.delivered + self.queue,
            ..self
        }
    }

    /// The state after a sender was cloned: the clone gets the next free id.
    pub open spec fn after_clone(self) -> Self {
        ChannelState {
            senders: self.senders.insert(self.issued),
            issued: self.issued + 1,
            ..self
        }
    }

    /// The state after sender clone `id` was dropped.
    pub open spec fn after_drop_sender(self, id: nat) -> Self {
        ChannelState { senders: self.senders.remove(id), ..self }
    }

    /// The state after the receiver was dropped. What is in flight stays
    /// where it is; nobody will take it.
    pub open spec fn after_drop_receiver(self) -> Self {
        ChannelState { receiver_alive: false, ..self }
    }

    /// Whether `op` is a move that some party can make: it takes a live
    /// handle to send, clone or drop a sender, and the receiver to receive.
    pub open spec fn enabled(self, op: ChannelOp<T>) -> bool {
        match op {
            ChannelOp::Send { from, .. } => self.senders.contains(from),
            ChannelOp::Recv => self.receiver_alive,
            ChannelOp::CloneSender { from } => self.senders.contains(from),
            ChannelOp::DropSender { id } => self.senders.contains(id),
            ChannelOp::DropReceiver => self.receiver_alive,
        }
    }

    /// The state after `op`.
    pub open spec fn apply(self, op: ChannelOp<T>) -> Self {
        match op {
            ChannelOp::Send { from, payload } => self.after_send(from, payload),
            ChannelOp::Recv => self.after_recv(),
            ChannelOp::CloneSender { .. } => self.after_clone(),
            ChannelOp::DropSender { id } => self.after_drop_sender(id),
            ChannelOp::DropReceiver => self.after_drop_receiver(),
        }
    }

    /// The state after the moves of `ops`, one after another; a move that is
    /// not enabled when its turn comes is skipped.
    pub open spec fn run(self, ops: Seq<ChannelOp<T>>) -> Self
        decreases ops.len(),
    {
        if ops.len() == 0 {
            self
        } else {
            let before = self.run(ops.drop_last());
            if before.enabled(ops.last()) {
                before.apply(ops.last())
            } else {
                before
            }
        }
    }

    /// What holds of every state that a channel reaches: the live senders
    /// are finitely many and carry ids that were handed out; every message
    /// accepted so far is either delivered or still in flight, in the order
    /// of acceptance and exactly once; and a bounded queue is within its bound.
    pub open spec fn inv(self) -> bool {
        &&& self.senders.finite()
        &&& self.senders.len() <= self.issued
        &&& forall|id: nat| self.senders.contains(id) ==> id < self.issued
        &&& self.sent =~= self.delivered + self.queue
        &&& forall|i: int| 0 <= i < self.sent.len() ==> (#[trigger] self.sent[i]).from < self.issued
        &&& match self.capacity {
            Some(c) => self.queue.len() <= c,
            None => true,
        }
    }
}

/// The payloads in `log` that sender clone `from` sent, in the order of `log`.
pub open spec fn sent_by<T>(log: Seq<Message<T>>, from: nat) -> Seq<T>
    decreases log.len(),
{
    if log.len() == 0 {
        Seq::empty()
    } else {
        let earlier = sent_by(log.drop_last(), from);
        if log.last().from == from {
            earlier.push(log.last().payload)
        } else {
            earlier
        }
    }
}

/// How many messages of `log` come from the sender clones with ids below
/// `bound`, counted sender by sender.
pub open spec fn sent_by_all<T>(log: Seq<Message<T>>, bound: nat) -> nat
    decreases bound,
{
    if bound == 0 {
        0
    } else {
        sent_by_all(log, (bound - 1) as nat) + sent_by(log, (bound - 1) as nat).len()
    }
}

/// Appending a message extends what its sender sent by its payload and
/// leaves what the other senders sent as it was.
pub proof fn lemma_sent_by_push<T>(log: Seq<Message<T>>, m: Message<T>, from: nat)
    ensures
        sent_by(log.push(m), from) == if m.from == from {
            sent_by(log, from).push(m.payload)
        } else {
            sent_by(log, from)
        },
{
    assert(log.push(m).drop_last() =~= log);
}

/// What a sender sent in two logs laid end to end is what it sent in the
/// first followed by what it sent in the second.
pub proof fn lemma_sent_by_concat<T>(a: Seq<Message<T>>, b: Seq<Message<T>>, from: nat)
    ensures
        sent_by(a + b, from) == sent_by(a, from) + sent_by(b, from),
    decreases b.len(),
{
    if b.len() == 0 {
        assert(a + b =~= a);
        assert(sent_by(a, from) + sent_by(b, from) =~= sent_by(a, from));
    } else {
        let front = b.drop_last();
        lemma_sent_by_concat(a, front, from);
        assert(a + b =~= (a + front).push(b.last()));
        lemma_sent_by_push(a + front, b.last(), from);
        assert(b =~= front.push(b.last()));
        lemma_sent_by_push(front, b.last(), from);
        if b.last().from == from {
            assert((sent_by(a, from) + sent_by(front, from)).push(b.last().payload) =~= sent_by(
                a,
                from,
            ) + sent_by(front, from).push(b.last().payload));
        }
    }
}

/// Appending a message from a sender below `bound` raises the count over
/// those senders by one; a message from any other sender leaves it.
pub proof fn lemma_sent_by_all_push<T>(log: Seq<Message<T>>, m: Message<T>, bound: nat)
    ensures
        sent_by_all(log.push(m), bound) == sent_by_all(log, bound) + if m.from < bound {
            1nat
        } else {
            0nat
        },
    decreases bound,
{
    if bound > 0 {
        lemma_sent_by_all_push(log, m, (bound - 1) as nat);
        lemma_sent_by_push(log, m, (bound - 1) as nat);
    }
}

/// A log whose messages all come from senders below `bound` is as long as
/// what those senders sent, taken together.
pub proof fn lemma_sent_by_all_is_len<T>(log: Seq<Message<T>>, bound: nat)
    requires
        forall|i: int| 0 <= i < log.len() ==> (#[trigger] log[i]).from < bound,
    ensures
        sent_by_all(log, bound) == log.len(),
    decreases log.len(),
{
    if log.len() == 0 {
        lemma_sent_by_all_empty::<T>(bound);
        assert(log =~= Seq::empty());
    } else {
        let front = log.drop_last();
        lemma_sent_by_all_is_len(front, bound);
        assert(log =~= front.push(log.last()));
        lemma_sent_by_all_push(front, log.last(), bound);
    }
}

/// Nobody sent anything in the empty log.
pub proof fn lemma_sent_by_all_empty<T>(bound: nat)
    ensures
        sent_by_all(Seq::<Message<T>>::empty(), bound) == 0,
    decreases bound,
{
    if bound > 0 {
        lemma_sent_by_all_empty::<T>((bound - 1) as nat);
    }
}

/// A new channel satisfies the invariant.
pub proof fn lemma_fresh_inv<T>(capacity: Option<nat>)
    ensures
        ChannelState::<T>::fresh(capacity).inv(),
{
    let s = ChannelState::<T>::fresh(capacity);
    assert(s.sent =~= s.delivered + s.queue);
}

/// Every enabled move keeps the invariant.
pub proof fn lemma_apply_inv<T>(s: ChannelState<T>, op: ChannelOp<T>)
    requires
        s.inv(),
        s.enabled(op),
    ensures
        s.apply(op).inv(),
{
    let t = s.apply(op);
    match op {
        ChannelOp::Send { from, payload } => {
            if s.send_verdict() is Accepted {
                let m = Message { from, payload };
                assert(t.sent =~= t.delivered + t.queue);
                assert forall|i: int| 0 <= i < t.sent.len() implies (#[trigger] t.sent[i]).from
                    < t.issued by {
                    if i < s.sent.len() {
                        assert(t.sent[i] == s.sent[i]);
                    }
                }
            }
        },
        ChannelOp::Recv => {
            if s.queue.len() > 0 {
                assert(t.sent =~= t.delivered + t.queue);
            }
        },
        ChannelOp::CloneSender { .. } => {
            assert forall|i: int| 0 <= i < t.sent.len() implies (#[trigger] t.sent[i]).from
                < t.issued by {
                assert(s.sent[i].from < s.issued);
            }
        },
        ChannelOp::DropSender { id } => {},
        ChannelOp::DropReceiver => {},
    }
}

/// Draining the queue keeps the invariant.
pub proof fn lemma_drain_inv<T>(s: ChannelState<T>)
    requires
        s.inv(),
    ensures
        s.after_drain().inv(),
{
    let t = s.after_drain();
    assert(t.sent =~= t.delivered + t.queue);
}

/// Every state that a run reaches from a state with the invariant has it.
pub proof fn lemma_run_inv<T>(s: ChannelState<T>, ops: Seq<ChannelOp<T>>)
    requires
        s.inv(),
    ensures
        s.run(ops).inv(),
    decreases ops.len(),
{
    if ops.len() > 0 {
        lemma_run_inv(s, ops.drop_last());
        let before = s.run(ops.drop_last());
        if before.enabled(ops.last()) {
            lemma_apply_inv(before, ops.last());
        }
    }
}

/// Per-sender order: what the receiver got from a sender so far is the
/// beginning of what that sender sent, in the same order; what is missing
/// is what is still in flight from it. Once nothing is in flight, the
/// receiver has got everything each sender sent, and as many messages in all
/// as the senders sent together.
pub proof fn lemma_delivery_order<T>(s: ChannelState<T>, from: nat)
    requires
        s.inv(),
    ensures
        sent_by(s.sent, from) == sent_by(s.delivered, from) + sent_by(s.queue, from),
        sent_by(s.delivered, from).is_prefix_of(sent_by(s.sent, from)),
        s.queue.len() == 0 ==> sent_by(s.delivered, from) == sent_by(s.sent, from),
        s.queue.len() == 0 ==> s.delivered.len() == sent_by_all(s.sent, s.issued),
{
    lemma_sent_by_concat(s.delivered, s.queue, from);
    assert(s.sent == s.delivered + s.queue);
    if s.queue.len() == 0 {
        assert(s.delivered + s.queue =~= s.delivered);
        lemma_sent_by_all_is_len(s.sent, s.issued);
    }
}

/// Closing is final: once the last sender is gone no move brings one back,
/// nothing more is accepted, and the queue only shrinks.
pub proof fn lemma_closed_stays_closed<T>(s: ChannelState<T>, op: ChannelOp<T>)
    requires
        s.is_closed(),
        s.enabled(op),
    ensures
        s.apply(op).is_closed(),
        s.apply(op).sent == s.sent,
        s.apply(op).queue.len() <= s.queue.len(),
{
}

/// The end of the stream is a terminal state: from a channel that is closed
/// and empty every attempt to receive reports the end, now and after any
/// further moves.
pub proof fn lemma_end_is_terminal<T>(s: ChannelState<T>, ops: Seq<ChannelOp<T>>)
    requires
        s.is_ended(),
    ensures
        s.run(ops).is_ended(),
        s.run(ops).recv_verdict() is End,
    decreases ops.len(),
{
    if ops.len() > 0 {
        lemma_end_is_terminal(s, ops.drop_last());
        let before = s.run(ops.drop_last());
        if before.enabled(ops.last()) {
            lemma_closed_stays_closed(before, ops.last());
        }
    }
}

/// A dropped receiver stays dropped: once it is gone, every send fails with
/// the receiver's absence, however full the queue is, accepts nothing and
/// never waits, now and after any further moves.
pub proof fn lemma_receiver_stays_dropped<T>(
    s: ChannelState<T>,
    ops: Seq<ChannelOp<T>>,
    from: nat,
    payload: T,
)
    requires
        !s.receiver_alive,
    ensures
        !s.run(ops).receiver_alive,
        s.run(ops).send_verdict() is Disconnected,
        s.run(ops).after_send(from, payload) == s.run(ops),
        s.run(ops).sent == s.sent,
    decreases ops.len(),
{
    if ops.len() > 0 {
        lemma_receiver_stays_dropped(s, ops.drop_last(), from, payload);
    }
}

/// The payloads that sender clone `from` tries to send in the moves of
/// `ops`, in the order of the moves.
pub open spec fn sends_of<T>(ops: Seq<ChannelOp<T>>, from: nat) -> Seq<T>
    decreases ops.len(),
{
    if ops.len() == 0 {
        Seq::empty()
    } else {
        let earlier = sends_of(ops.drop_last(), from);
        match ops.last() {
            ChannelOp::Send { from: sender, payload } => if sender == from {
                earlier.push(payload)
            } else {
                earlier
            },
            _ => earlier,
        }
    }
}

/// How many of the moves of `ops` are sends.
pub open spec fn count_sends<T>(ops: Seq<ChannelOp<T>>) -> nat
    decreases ops.len(),
{
    if ops.len() == 0 {
        0
    } else {
        count_sends(ops.drop_last()) + if ops.last() is Send {
            1nat
        } else {
            0nat
        }
    }
}

/// Whether each move of `ops` is enabled when its turn comes in the run
/// from `s`: every party moves only through a handle that it still holds.
pub open spec fn all_enabled<T>(s: ChannelState<T>, ops: Seq<ChannelOp<T>>) -> bool
    decreases ops.len(),
{
    ops.len() > 0 ==> all_enabled(s, ops.drop_last()) && s.run(ops.drop_last()).enabled(
        ops.last(),
    )
}

/// Fan-in, for every interleaving: take any run of a channel without a
/// bound from its creation, in which the parties move through handles that
/// they hold and the receiver is never dropped. Then the channel accepted,
/// from each sender, exactly the payloads that it sent, in the order in
/// which it sent them, and as many messages in all as there were sends.
/// Once the queue is empty, the same holds of what the receiver got.
pub proof fn lemma_fan_in<T>(ops: Seq<ChannelOp<T>>, from: nat)
    requires
        all_enabled(ChannelState::<T>::fresh(None), ops),
        ChannelState::<T>::fresh(None).run(ops).receiver_alive,
    ensures
        ({
            let end = ChannelState::<T>::fresh(None).run(ops);
            &&& end.inv()
            &&& end.capacity is None
            &&& sent_by(end.sent, from) == sends_of(ops, from)
            &&& end.sent.len() == count_sends(ops)
            &&& end.queue.len() == 0 ==> sent_by(end.delivered, from) == sends_of(ops, from)
            &&& end.queue.len() == 0 ==> end.delivered.len() == count_sends(ops)
        }),
    decreases ops.len(),
{
    let start = ChannelState::<T>::fresh(None);
    let end = start.run(ops);
    lemma_fresh_inv::<T>(None);
    lemma_run_inv(start, ops);
    if ops.len() > 0 {
        let before = start.run(ops.drop_last());
        assert(before.enabled(ops.last()));
        assert(before.receiver_alive) by {
            if !before.receiver_alive {
                lemma_move_keeps_receiver_dropped(before, ops.last());
            }
        }
        lemma_fan_in(ops.drop_last(), from);
        match ops.last() {
            ChannelOp::Send { from: sender, payload } => {
                lemma_sent_by_push(before.sent, Message { from: sender, payload }, from);
            },
            _ => {},
        }
    }
    lemma_delivery_order(end, from);
    if end.queue.len() == 0 {
        assert(end.delivered + end.queue =~= end.delivered);
    }
}

/// No move brings a dropped receiver back.
pub proof fn lemma_move_keeps_receiver_dropped<T>(s: ChannelState<T>, op: ChannelOp<T>)
    requires
        !s.receiver_alive,
    ensures
        !s.apply(op).receiver_alive,
{
}

} // verus!

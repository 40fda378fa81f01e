//! The fan-in pattern: several producers send their payloads through clones
//! of one sender, and the coordinator drains the channel to the end of the
//! stream.
//!
//! Which producer moves next is the caller's choice, given as a schedule. A
//! host that runs the producers on threads leaves this choice to its
//! scheduler; whatever it picks, each producer's payloads arrive in the
//! order in which that producer sent them.

use crate::channel::{Channel, Sender};
use crate::channel_state::{lemma_sent_by_push, sent_by, ChannelState, Message};
use vstd::prelude::*;

verus! {

/// What the coordinator drained from the channel.
#[derive(Debug, PartialEq, Eq)]
pub struct FanIn<T> {
    /// The payloads in the order of their arrival.
    pub items: Vec<T>,
    /// For each payload, the index of the producer that sent it.
    pub origins: Vec<usize>,
}

/// How many payloads each producer holds.
pub open spec fn lengths<T>(producers: Seq<Vec<T>>) -> Seq<nat> {
    Seq::new(producers.len(), |p: int| producers[p]@.len())
}

/// The sum of the numbers in `left`.
pub open spec fn total(left: Seq<nat>) -> nat
    decreases left.len(),
{
    if left.len() == 0 {
        0
    } else {
        total(left.drop_last()) + left.last()
    }
}

/// The order in which the producers from `from` on send what they have
/// left when each runs to its end before the next begins.
pub open spec fn flush_order(left: Seq<nat>, from: nat) -> Seq<usize>
    decreases left.len() - from,
{
    if from >= left.len() {
        Seq::empty()
    } else {
        Seq::new(left[from as int], |i: int| from as usize) + flush_order(left, from + 1)
    }
}

/// The order in which the producers send under `schedule`, where producer
/// `p` has `left[p]` payloads to send: each entry of the schedule lets the
/// producer it names send its next payload, and is passed over if it names
/// no producer or one that has nothing left; after the last entry the
/// producers send what they have left, one producer after the other.
pub open spec fn scheduled_order(schedule: Seq<usize>, left: Seq<nat>) -> Seq<usize>
    decreases schedule.len(),
{
    if schedule.len() == 0 {
        flush_order(left, 0)
    } else {
        let p = schedule[0] as int;
        if p < left.len() && left[p] > 0 {
            seq![schedule[0]] + scheduled_order(
                schedule.drop_first(),
                left.update(p, (left[p] - 1) as nat),
            )
        } else {
            scheduled_order(schedule.drop_first(), left)
        }
    }
}

/// The payloads, each with the producer it came from.
pub open spec fn tagged<T>(items: Seq<T>, origins: Seq<usize>) -> Seq<Message<T>> {
    Seq::new(items.len(), |i: int| Message { from: origins[i] as nat, payload: items[i] })
}

/// The payloads among `items` that came from producer `p`, in their order.
pub open spec fn from_producer<T>(items: Seq<T>, origins: Seq<usize>, p: nat) -> Seq<T> {
    sent_by(tagged(items, origins), p)
}

/// One payload less at one producer is one payload less in all.
pub proof fn lemma_total_update(left: Seq<nat>, p: int)
    requires
        0 <= p < left.len(),
        left[p] > 0,
    ensures
        total(left.update(p, (left[p] - 1) as nat)) + 1 == total(left),
    decreases left.len(),
{
    let less = left.update(p, (left[p] - 1) as nat);
    if p == left.len() - 1 {
        assert(less.drop_last() =~= left.drop_last());
    } else {
        lemma_total_update(left.drop_last(), p);
        assert(less.drop_last() =~= left.drop_last().update(p, (left[p] - 1) as nat));
    }
}

/// What the producers from `from` on send depends only on what they have left.
pub proof fn lemma_flush_agree(a: Seq<nat>, b: Seq<nat>, from: nat)
    requires
        a.len() == b.len(),
        forall|q: int| from <= q < a.len() ==> a[q] == b[q],
    ensures
        flush_order(a, from) == flush_order(b, from),
    decreases a.len() - from,
{
    if from < a.len() {
        lemma_flush_agree(a, b, from + 1);
    }
}

/// A producer that has something left sends one payload first and then
/// goes on as if it had held one less.
pub proof fn lemma_flush_take(left: Seq<nat>, p: nat)
    requires
        p < left.len(),
        left[p as int] > 0,
    ensures
        flush_order(left, p) == seq![p as usize] + flush_order(
            left.update(p as int, (left[p as int] - 1) as nat),
            p,
        ),
{
    let less = left.update(p as int, (left[p as int] - 1) as nat);
    lemma_flush_agree(left, less, p + 1);
    assert(Seq::new(left[p as int], |i: int| p as usize) =~= seq![p as usize] + Seq::new(
        less[p as int],
        |i: int| p as usize,
    ));
    assert(flush_order(left, p) =~= seq![p as usize] + flush_order(less, p));
}

/// A producer that has nothing left is passed over.
pub proof fn lemma_flush_skip(left: Seq<nat>, p: nat)
    requires
        p < left.len(),
        left[p as int] == 0,
    ensures
        flush_order(left, p) == flush_order(left, p + 1),
{
    assert(flush_order(left, p) =~= flush_order(left, p + 1));
}

/// Two logs that hold the same payloads, and in which the messages of
/// sender `q` in the one are those of sender `p` in the other, show the same
/// payloads for those two senders.
pub proof fn lemma_sent_by_relabel<T>(a: Seq<Message<T>>, q: nat, b: Seq<Message<T>>, p: nat)
    requires
        a.len() == b.len(),
        forall|i: int| 0 <= i < a.len() ==> (#[trigger] a[i]).payload == b[i].payload,
        forall|i: int| 0 <= i < a.len() ==> ((#[trigger] a[i]).from == q <==> b[i].from == p),
    ensures
        sent_by(a, q) == sent_by(b, p),
    decreases a.len(),
{
    if a.len() > 0 {
        assert(a.last().payload == b.last().payload);
        assert(a.last().from == q <==> b.last().from == p);
        lemma_sent_by_relabel(a.drop_last(), q, b.drop_last(), p);
    }
}

/// What each producer still holds, laid after what it has sent, is what it
/// held at the start.
pub open spec fn progress<T>(
    queue: Seq<Message<T>>,
    producers: Seq<Vec<T>>,
    start: Seq<Vec<T>>,
) -> bool {
    &&& producers.len() == start.len()
    &&& forall|p: int|
        0 <= p < start.len() ==> sent_by(queue, (p + 1) as nat) + (#[trigger] producers[p])@
            =~= start[p]@
}

/// Each message in flight came from the producer that the record names.
pub open spec fn recorded<T>(queue: Seq<Message<T>>, origins: Seq<usize>, count: nat) -> bool {
    &&& queue.len() == origins.len()
    &&& forall|i: int| 0 <= i < origins.len() ==> (#[trigger] origins[i]) < count
    &&& forall|i: int| 0 <= i < origins.len() ==> (#[trigger] queue[i]).from == origins[i] + 1
}

/// The state of a channel whose first sender is gone and whose clones
/// 1 to `count` are in the hands of the producers, with nothing delivered.
pub open spec fn in_hands<T>(s: ChannelState<T>, count: nat) -> bool {
    &&& s.receiver_alive
    &&& s.capacity is None
    &&& s.issued == count + 1
    &&& s.delivered.len() == 0
    &&& forall|id: nat| 1 <= id <= count ==> s.senders.contains(id)
}

/// Lets producer `p` send its next payload through its sender.
fn send_next<T>(
    channel: &mut Channel<T>,
    senders: &Vec<Sender>,
    producers: &mut Vec<Vec<T>>,
    origins: &mut Vec<usize>,
    p: usize,
    Ghost(start): Ghost<Seq<Vec<T>>>,
)
    requires
        old(channel).wf(),
        in_hands(old(channel)@, senders@.len() as nat),
        forall|q: int| 0 <= q < senders@.len() ==> (#[trigger] senders@[q])@ == q + 1,
        senders@.len() == start.len(),
        progress(old(channel)@.queue, old(producers)@, start),
        recorded(old(channel)@.queue, old(origins)@, start.len()),
        p < start.len(),
        old(producers)@[p as int]@.len() > 0,
    ensures
        final(channel).wf(),
        in_hands(final(channel)@, senders@.len() as nat),
        final(channel)@.senders == old(channel)@.senders,
        progress(final(channel)@.queue, final(producers)@, start),
        recorded(final(channel)@.queue, final(origins)@, start.len()),
        final(origins)@ == old(origins)@.push(p),
        lengths(final(producers)@) == lengths(old(producers)@).update(
            p as int,
            (lengths(old(producers)@)[p as int] - 1) as nat,
        ),
{
    let ghost queue = channel@.queue;
    let ghost before = producers@;
    assert(before[p as int]@.len() > 0);
    let payload = producers[p].remove(0);
    let ghost m = Message { from: (p + 1) as nat, payload };
    assert(senders@[p as int]@ == p + 1);
    let _ = channel.send(&senders[p], payload);
    origins.push(p);
    proof {
        assert(channel@.queue == queue.push(m));
        assert forall|q: int| 0 <= q < start.len() implies sent_by(
            channel@.queue,
            (q + 1) as nat,
        ) + (#[trigger] producers@[q])@ =~= start[q]@ by {
            lemma_sent_by_push(queue, m, (q + 1) as nat);
            assert(sent_by(queue, (q + 1) as nat) + before[q]@ =~= start[q]@);
            if q == p {
                assert(producers@[q]@ =~= before[q]@.remove(0));
            } else {
                assert(producers@[q] == before[q]);
            }
        }
        assert(lengths(producers@) =~= lengths(before).update(
            p as int,
            (lengths(before)[p as int] - 1) as nat,
        ));
    }
}

/// Runs the fan-in pattern: creates a channel, hands a clone of its sender
/// to each producer, drops the first sender, lets the producers send under
/// `schedule`, drops each producer's sender when it is done, and drains the
/// channel to the end of the stream.
///
/// The result holds every payload exactly once. Its order is the order of
/// the sends, which the schedule fixes; and the payloads of each producer
/// stand in it in the order in which that producer held them.
pub fn fan_in<T>(producers: Vec<Vec<T>>, schedule: &Vec<usize>) -> (r: FanIn<T>)
    ensures
        r.origins@ == scheduled_order(schedule@, lengths(producers@)),
        r.items@.len() == r.origins@.len(),
        r.items@.len() == total(lengths(producers@)),
        forall|p: int|
            0 <= p < producers@.len() ==> #[trigger] from_producer(r.items@, r.origins@, p as nat)
                == producers@[p]@,
{
    let ghost start = producers@;
    let ghost target = scheduled_order(schedule@, lengths(start));
    let mut producers = producers;
    let count = producers.len();
    let (mut channel, first) = Channel::<T>::new();
    let mut senders: Vec<Sender> = Vec::new();
    while senders.len() < count
        invariant
            count == start.len(),
            channel.wf(),
            channel@.receiver_alive,
            channel@.capacity is None,
            channel@.issued == senders@.len() + 1,
            channel@.queue.len() == 0,
            channel@.delivered.len() == 0,
            first@ == 0,
            senders@.len() <= count,
            channel@.senders =~= Set::new(|id: nat| id <= senders@.len()),
            forall|q: int| 0 <= q < senders@.len() ==> (#[trigger] senders@[q])@ == q + 1,
        decreases count - senders@.len(),
    {
        let clone = channel.clone_sender(&first);
        senders.push(clone);
    }
    channel.drop_sender(first);
    let mut origins: Vec<usize> = Vec::new();
    proof {
        assert(channel@.senders =~= Set::new(|id: nat| 1 <= id <= count));
        assert forall|p: int| 0 <= p < start.len() implies sent_by(
            channel@.queue,
            (p + 1) as nat,
        ) + (#[trigger] producers@[p])@ =~= start[p]@ by {}
        assert(schedule@.skip(0) =~= schedule@);
        assert(origins@ + target =~= target);
    }
    let mut j: usize = 0;
    while j < schedule.len()
        invariant
            j <= schedule@.len(),
            count == start.len(),
            senders@.len() == count,
            channel.wf(),
            in_hands(channel@, count as nat),
            channel@.senders =~= Set::new(|id: nat| 1 <= id <= count),
            forall|q: int| 0 <= q < senders@.len() ==> (#[trigger] senders@[q])@ == q + 1,
            progress(channel@.queue, producers@, start),
            recorded(channel@.queue, origins@, count as nat),
            origins@.len() + total(lengths(producers@)) == total(lengths(start)),
            origins@ + scheduled_order(schedule@.skip(j as int), lengths(producers@)) =~= target,
        decreases schedule@.len() - j,
    {
        let p = schedule[j];
        let ghost left = lengths(producers@);
        let ghost done = origins@;
        proof {
            assert(schedule@.skip(j as int).drop_first() =~= schedule@.skip(j + 1));
            assert(schedule@.skip(j as int)[0] == p);
        }
        if p < count && producers[p].len() > 0 {
            proof {
                assert(left[p as int] > 0);
                lemma_total_update(left, p as int);
            }
            send_next(&mut channel, &senders, &mut producers, &mut origins, p, Ghost(start));
            proof {
                let rest = scheduled_order(schedule@.skip(j + 1), lengths(producers@));
                assert(done.push(p) + rest =~= done + (seq![p] + rest));
            }
        } else {
            proof {
                if p < count {
                    assert(left[p as int] == 0);
                }
            }
        }
        j = j + 1;
    }
    let mut p: usize = 0;
    while p < count
        invariant
            p <= count,
            count == start.len(),
            senders@.len() == count,
            channel.wf(),
            in_hands(channel@, count as nat),
            channel@.senders =~= Set::new(|id: nat| 1 <= id <= count),
            forall|q: int| 0 <= q < senders@.len() ==> (#[trigger] senders@[q])@ == q + 1,
            progress(channel@.queue, producers@, start),
            recorded(channel@.queue, origins@, count as nat),
            origins@.len() + total(lengths(producers@)) == total(lengths(start)),
            origins@ + flush_order(lengths(producers@), p as nat) =~= target,
            forall|q: int| 0 <= q < p ==> (#[trigger] producers@[q])@.len() == 0,
        decreases count - p,
    {
        while producers[p].len() > 0
            invariant
                p < count,
                count == start.len(),
                senders@.len() == count,
                channel.wf(),
                in_hands(channel@, count as nat),
                channel@.senders =~= Set::new(|id: nat| 1 <= id <= count),
                forall|q: int| 0 <= q < senders@.len() ==> (#[trigger] senders@[q])@ == q + 1,
                progress(channel@.queue, producers@, start),
                recorded(channel@.queue, origins@, count as nat),
                origins@.len() + total(lengths(producers@)) == total(lengths(start)),
                origins@ + flush_order(lengths(producers@), p as nat) =~= target,
                forall|q: int| 0 <= q < p ==> (#[trigger] producers@[q])@.len() == 0,
            decreases producers@[p as int]@.len(),
        {
            let ghost left = lengths(producers@);
            let ghost done = origins@;
            let ghost held = producers@;
            proof {
                assert(left[p as int] > 0);
                lemma_total_update(left, p as int);
                lemma_flush_take(left, p as nat);
            }
            send_next(&mut channel, &senders, &mut producers, &mut origins, p, Ghost(start));
            proof {
                let rest = flush_order(lengths(producers@), p as nat);
                assert(done.push(p) + rest =~= done + (seq![p] + rest));
                assert forall|q: int| 0 <= q < p implies (#[trigger] producers@[q])@.len() == 0 by {
                    assert(lengths(producers@)[q] == left[q]);
                    assert(held[q]@.len() == 0);
                }
            }
        }
        proof {
            assert(lengths(producers@)[p as int] == 0);
            lemma_flush_skip(lengths(producers@), p as nat);
        }
        p = p + 1;
    }
    let ghost queue = channel@.queue;
    while senders.len() > 0
        invariant
            channel.wf(),
            channel@.receiver_alive,
            channel@.queue == queue,
            channel@.senders =~= Set::new(|id: nat| 1 <= id <= senders@.len()),
            forall|q: int| 0 <= q < senders@.len() ==> (#[trigger] senders@[q])@ == q + 1,
        decreases senders@.len(),
    {
        let ghost last = senders@.len();
        match senders.pop() {
            Some(sender) => {
                assert(sender@ == last);
                assert(channel@.senders.contains(last));
                channel.drop_sender(sender);
            },
            None => {},
        }
    }
    let drained = channel.iterate();
    proof {
        assert(origins@ =~= target);
        assert(drained.ended);
        let log = tagged(drained.items@, origins@);
        assert forall|p: int| 0 <= p < start.len() implies #[trigger] from_producer(
            drained.items@,
            origins@,
            p as nat,
        ) == start[p]@ by {
            lemma_sent_by_relabel(queue, (p + 1) as nat, log, p as nat);
            assert(producers@[p]@.len() == 0);
            assert(sent_by(queue, (p + 1) as nat) + producers@[p]@ =~= start[p]@);
        }
        lemma_total_empty(lengths(producers@));
    }
    FanIn { items: drained.items, origins }
}

/// Producers that hold nothing hold nothing in all.
pub proof fn lemma_total_empty(left: Seq<nat>)
    requires
        forall|q: int| 0 <= q < left.len() ==> left[q] == 0,
    ensures
        total(left) == 0,
    decreases left.len(),
{
    if left.len() > 0 {
        lemma_total_empty(left.drop_last());
    }
}

} // verus!

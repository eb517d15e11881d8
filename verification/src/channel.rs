//! The transfer channel: a bounded first-in first-out queue of records
//! between the producing and the consuming side of a run. Its capacity is
//! the only backpressure there is: a full channel takes no record until the
//! consumer has taken one out.

use std::collections::VecDeque;
use vstd::prelude::*;
use crate::traits::{Reply, ReplyView};
use crate::types::{Payload, Record};

verus! {

/// A channel, as the contracts see it.
pub struct ChannelView {
    /// The records under way, the oldest first.
    pub queue: Seq<Record>,
    /// The number of records that the channel can hold.
    pub capacity: nat,
    /// The producing side has let go of the channel.
    pub released: bool,
    /// The consuming side has let go of the channel.
    pub abandoned: bool,
}

/// What became of a record that was offered to the channel.
#[derive(Debug)]
pub enum Offer {
    /// The channel took it.
    Accepted,
    /// The channel is full: the sender has to wait for the consumer. The
    /// record comes back.
    Full(Payload),
    /// One side has let go of the channel: no record will be taken any more.
    /// The record comes back.
    Closed(Payload),
}

/// What the channel had for the consumer.
#[derive(Debug)]
pub enum Delivery {
    /// The oldest record under way.
    Record(Payload),
    /// Nothing yet: the receiver has to wait for the producer.
    Empty,
    /// Nothing any more: the producing side has let go and every record was
    /// taken out.
    End,
}

/// The channel between one producer and one consumer.
pub struct Channel {
    queue: VecDeque<Payload>,
    capacity: usize,
    released: bool,
    abandoned: bool,
}

/// A new channel of that capacity, as the contracts see it.
pub open spec fn opened(capacity: nat) -> ChannelView {
    ChannelView { queue: Seq::empty(), capacity, released: false, abandoned: false }
}

/// Whether the channel takes a record now.
pub open spec fn accepts(channel: ChannelView) -> bool {
    !channel.released && !channel.abandoned && channel.queue.len() < channel.capacity
}

/// The channel after `record` was offered: it has joined the queue at the
/// back, if the channel took it.
pub open spec fn after_offer(channel: ChannelView, record: Record) -> ChannelView {
    if accepts(channel) {
        ChannelView { queue: channel.queue.push(record), ..channel }
    } else {
        channel
    }
}

/// The channel after the consumer asked for a record: the oldest one has
/// left, if there was any.
pub open spec fn after_take(channel: ChannelView) -> ChannelView {
    if channel.queue.len() > 0 {
        ChannelView { queue: channel.queue.drop_first(), ..channel }
    } else {
        channel
    }
}

impl View for Channel {
    type V = ChannelView;

    closed spec fn view(&self) -> ChannelView {
        ChannelView {
            queue: self.queue@.map_values(|p: Payload| p@),
            capacity: self.capacity as nat,
            released: self.released,
            abandoned: self.abandoned,
        }
    }
}

impl Channel {
    /// An empty channel that holds up to `capacity` records, with both sides
    /// attached.
    pub fn new(capacity: usize) -> (channel: Self)
        ensures
            channel@ == opened(capacity as nat),
    {
        let channel = Channel {
            queue: VecDeque::new(),
            capacity,
            released: false,
            abandoned: false,
        };
        assert(channel@.queue =~= Seq::<Record>::empty());
        channel
    }

    /// Offers a record. The channel takes it at the back of the queue unless
    /// it is full or a side has let go; then nothing changes and the record
    /// comes back, with the reason.
    pub fn offer(&mut self, payload: Payload) -> (offer: Offer)
        ensures
            final(self)@ == after_offer(old(self)@, payload@),
            match offer {
                Offer::Accepted => accepts(old(self)@),
                Offer::Full(back) => back == payload && !old(self)@.released && !old(
                    self,
                )@.abandoned && old(self)@.queue.len() >= old(self)@.capacity,
                Offer::Closed(back) => back == payload && (old(self)@.released || old(
                    self,
                )@.abandoned),
            },
    {
        if self.released || self.abandoned {
            Offer::Closed(payload)
        } else if self.queue.len() >= self.capacity {
            Offer::Full(payload)
        } else {
            proof {
                assert(self.queue@.push(payload).map_values(|p: Payload| p@)
                    =~= self.queue@.map_values(|p: Payload| p@).push(payload@));
            }
            self.queue.push_back(payload);
            Offer::Accepted
        }
    }

    /// Takes the oldest record out, if there is one. An empty channel says
    /// whether more may come.
    pub fn take(&mut self) -> (delivery: Delivery)
        ensures
            final(self)@ == after_take(old(self)@),
            match delivery {
                Delivery::Record(payload) => old(self)@.queue.len() > 0 && payload@ == old(
                    self,
                )@.queue.first(),
                Delivery::Empty => old(self)@.queue.len() == 0 && !old(self)@.released,
                Delivery::End => old(self)@.queue.len() == 0 && old(self)@.released,
            },
    {
        let ghost before = self.queue@;
        match self.queue.pop_front() {
            Some(payload) => {
                proof {
                    assert(before.drop_first().map_values(|p: Payload| p@) =~= before.map_values(
                        |p: Payload| p@,
                    ).drop_first());
                }
                Delivery::Record(payload)
            },
            None => if self.released {
                Delivery::End
            } else {
                Delivery::Empty
            },
        }
    }

    /// The producing side lets go: what is under way can still be taken
    /// out, and after that the channel reports its end.
    pub fn release(&mut self)
        ensures
            final(self)@ == (ChannelView { released: true, ..old(self)@ }),
    {
        self.released = true;
    }

    /// The consuming side lets go: no record is taken any more.
    pub fn abandon(&mut self)
        ensures
            final(self)@ == (ChannelView { abandoned: true, ..old(self)@ }),
    {
        self.abandoned = true;
    }

    /// The number of records under way.
    pub fn len(&self) -> (len: usize)
        ensures
            len == self@.queue.len(),
    {
        self.queue.len()
    }

    /// The number of records that the channel can hold.
    pub fn capacity(&self) -> (capacity: usize)
        ensures
            capacity == self@.capacity,
    {
        self.capacity
    }
}

/// The records that payloads waiting to be sent stand for, in order.
pub open spec fn waiting(outbox: Seq<Payload>) -> Seq<Record> {
    outbox.map_values(|p: Payload| p@)
}

/// The number of records that the channel takes before it refuses one:
/// the room that is left, or none once a side has let go.
pub open spec fn room(channel: ChannelView) -> nat {
    if channel.released || channel.abandoned || channel.queue.len() >= channel.capacity {
        0
    } else {
        (channel.capacity - channel.queue.len()) as nat
    }
}

/// How many of `count` records waiting the channel takes now.
pub open spec fn admitted(channel: ChannelView, count: nat) -> nat {
    if count <= room(channel) {
        count
    } else {
        room(channel)
    }
}

/// Sends what the producing side has waiting, as far as the channel takes
/// it: the records join the queue in order, and those that found no room
/// stay waiting. The answer for the producing side is that the send is
/// done when nothing is left waiting, that it failed when a side has let go
/// of the channel, and none yet when the channel is full and the sender has
/// to wait for the consumer.
pub fn deliver(channel: &mut Channel, outbox: &mut VecDeque<Payload>) -> (reply: Option<Reply>)
    ensures
        ({
            let records = waiting(old(outbox)@);
            let taken = admitted(old(channel)@, records.len()) as int;
            &&& final(channel)@ == (ChannelView {
                queue: old(channel)@.queue + records.take(taken),
                ..old(channel)@
            })
            &&& waiting(final(outbox)@) == records.skip(taken)
            &&& match reply {
                Some(answer) => if taken == records.len() {
                    answer@ == ReplyView::Done
                } else {
                    answer@ == ReplyView::Failed && (old(channel)@.released || old(
                        channel,
                    )@.abandoned)
                },
                None => taken < records.len() && !old(channel)@.released && !old(
                    channel,
                )@.abandoned,
            }
        }),
{
    let ghost records = waiting(outbox@);
    let ghost before = channel@;
    let ghost mut taken: int = 0;
    proof {
        assert(before.queue + records.take(0) =~= before.queue);
        assert(records.skip(0) =~= records);
    }
    loop
        invariant
            records == waiting(old(outbox)@),
            before == old(channel)@,
            0 <= taken <= records.len(),
            taken <= room(before),
            channel@ == (ChannelView { queue: before.queue + records.take(taken), ..before }),
            waiting(outbox@) == records.skip(taken),
        decreases outbox@.len(),
    {
        let ghost remaining = outbox@;
        proof {
            assert(waiting(remaining).len() == remaining.len());
            assert(records.skip(taken).len() == records.len() - taken);
        }
        match outbox.pop_front() {
            None => {
                return Some(Reply::Done);
            },
            Some(payload) => {
                proof {
                    assert(payload == remaining[0]);
                    assert(waiting(remaining)[0] == payload@);
                    assert(payload@ == records[taken]);
                    assert forall|i: int| 0 <= i < remaining.len() - 1 implies waiting(
                        remaining.drop_first(),
                    )[i] == records.skip(taken + 1)[i] by {
                        assert(waiting(remaining)[i + 1] == records.skip(taken)[i + 1]);
                    }
                    assert(waiting(remaining.drop_first()) =~= records.skip(taken + 1));
                }
                match channel.offer(payload) {
                    Offer::Accepted => {
                        proof {
                            assert((before.queue + records.take(taken)).push(records[taken])
                                =~= before.queue + records.take(taken + 1));
                            taken = taken + 1;
                        }
                    },
                    Offer::Full(back) => {
                        proof {
                            assert(seq![back] + remaining.drop_first() =~= remaining);
                        }
                        outbox.push_front(back);
                        return None;
                    },
                    Offer::Closed(back) => {
                        proof {
                            assert(seq![back] + remaining.drop_first() =~= remaining);
                        }
                        outbox.push_front(back);
                        return Some(Reply::Failed);
                    },
                }
            },
        }
    }
}

/// Receives for the consuming side: the oldest record under way leaves the
/// channel and is the answer; a channel that is drained and released
/// answers with the end of the stream; an empty one that may still get
/// records has no answer yet, and the receiver has to wait for the
/// producer.
pub fn collect(channel: &mut Channel) -> (reply: Option<Reply>)
    ensures
        final(channel)@ == after_take(old(channel)@),
        match reply {
            Some(answer) => if old(channel)@.queue.len() > 0 {
                answer@ == ReplyView::Received(old(channel)@.queue.first())
            } else {
                answer@ == ReplyView::End && old(channel)@.released
            },
            None => old(channel)@.queue.len() == 0 && !old(channel)@.released,
        },
{
    match channel.take() {
        Delivery::Record(payload) => Some(Reply::Received(payload)),
        Delivery::End => Some(Reply::End),
        Delivery::Empty => None,
    }
}

/// One use of the channel by either side.
pub enum ChannelStep {
    /// The producer offers this record.
    Offer(Record),
    /// The consumer asks for a record.
    Take,
}

/// The channel after one use.
pub open spec fn after_step(channel: ChannelView, step: ChannelStep) -> ChannelView {
    match step {
        ChannelStep::Offer(record) => after_offer(channel, record),
        ChannelStep::Take => after_take(channel),
    }
}

/// The channel after these uses, in turn.
pub open spec fn after_steps(channel: ChannelView, steps: Seq<ChannelStep>) -> ChannelView
    decreases steps.len(),
{
    if steps.len() == 0 {
        channel
    } else {
        after_step(after_steps(channel, steps.drop_last()), steps.last())
    }
}

/// The records that the channel took during these uses, in order.
pub open spec fn taken_in(channel: ChannelView, steps: Seq<ChannelStep>) -> Seq<Record>
    decreases steps.len(),
{
    if steps.len() == 0 {
        Seq::empty()
    } else {
        let before = after_steps(channel, steps.drop_last());
        match steps.last() {
            ChannelStep::Offer(record) if accepts(before) => taken_in(
                channel,
                steps.drop_last(),
            ).push(record),
            _ => taken_in(channel, steps.drop_last()),
        }
    }
}

/// The records that the channel handed to the consumer during these uses,
/// in order.
pub open spec fn handed_out(channel: ChannelView, steps: Seq<ChannelStep>) -> Seq<Record>
    decreases steps.len(),
{
    if steps.len() == 0 {
        Seq::empty()
    } else {
        let before = after_steps(channel, steps.drop_last());
        match steps.last() {
            ChannelStep::Take if before.queue.len() > 0 => handed_out(
                channel,
                steps.drop_last(),
            ).push(before.queue.first()),
            _ => handed_out(channel, steps.drop_last()),
        }
    }
}

/// First in, first out, each once: whatever the two sides do, and in
/// whatever order, the records handed out followed by those still under way
/// are the records that were under way at first followed by those taken in.
/// And the channel never holds more than its capacity.
pub proof fn lemma_channel_order(channel: ChannelView, steps: Seq<ChannelStep>)
    requires
        channel.queue.len() <= channel.capacity,
    ensures
        handed_out(channel, steps) + after_steps(channel, steps).queue == channel.queue + taken_in(
            channel,
            steps,
        ),
        after_steps(channel, steps).queue.len() <= channel.capacity,
        after_steps(channel, steps).capacity == channel.capacity,
    decreases steps.len(),
{
    if steps.len() == 0 {
        assert(handed_out(channel, steps) + channel.queue =~= channel.queue + taken_in(
            channel,
            steps,
        ));
    } else {
        let front = steps.drop_last();
        lemma_channel_order(channel, front);
        let before = after_steps(channel, front);
        let out = handed_out(channel, front);
        let taken = taken_in(channel, front);
        match steps.last() {
            ChannelStep::Offer(record) => {
                if accepts(before) {
                    assert(out + before.queue.push(record) =~= (out + before.queue).push(record));
                    assert(channel.queue + taken.push(record) =~= (channel.queue + taken).push(
                        record,
                    ));
                }
            },
            ChannelStep::Take => {
                if before.queue.len() > 0 {
                    assert(out.push(before.queue.first()) + before.queue.drop_first() =~= out
                        + before.queue);
                }
            },
        }
    }
}

/// Backpressure: on a channel of capacity `capacity`, opened empty, the
/// records taken in never outnumber the records handed out by more than
/// the capacity. So once `capacity` records are under way the channel is
/// full, and the next one is taken only after the consumer has received
/// one. What was handed out is the front of what was taken in, and all of
/// it once the channel is drained.
pub proof fn lemma_backpressure(capacity: nat, steps: Seq<ChannelStep>)
    ensures
        taken_in(opened(capacity), steps).len() <= handed_out(opened(capacity), steps).len()
            + capacity,
        taken_in(opened(capacity), steps).len() > capacity ==> handed_out(
            opened(capacity),
            steps,
        ).len() >= 1,
        taken_in(opened(capacity), steps).len() == handed_out(opened(capacity), steps).len()
            + capacity ==> !accepts(after_steps(opened(capacity), steps)),
        handed_out(opened(capacity), steps).is_prefix_of(taken_in(opened(capacity), steps)),
        after_steps(opened(capacity), steps).queue.len() == 0 ==> handed_out(
            opened(capacity),
            steps,
        ) == taken_in(opened(capacity), steps),
{
    let channel = opened(capacity);
    lemma_channel_order(channel, steps);
    let out = handed_out(channel, steps);
    let under_way = after_steps(channel, steps).queue;
    let taken = taken_in(channel, steps);
    assert(channel.queue + taken =~= taken);
    assert((out + under_way).len() == out.len() + under_way.len());
    assert(out =~= (out + under_way).subrange(0, out.len() as int));
    if under_way.len() == 0 {
        assert(out + under_way =~= out);
    }
}

} // verus!

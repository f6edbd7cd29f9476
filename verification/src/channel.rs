//! The bounded queue between the capture side and the segment writer.
//!
//! Events leave in the order in which they were accepted. A full queue
//! refuses an event instead of making the sender wait: the event is handed
//! back to the sender and the refusal is counted, so that a gap in a
//! recording is never silent.

use crate::event::{event_views, EventView, RecordingEvent};
use std::collections::VecDeque;
use vstd::prelude::*;

verus! {

/// A first-in first-out queue of recording events that holds at most
/// `capacity` of them and counts the events it had to refuse.
pub struct SampleChannel {
    queue: VecDeque<RecordingEvent>,
    capacity: usize,
    dropped: u64,
}

/// The channel as a mathematical value.
pub struct ChannelModel {
    /// The events accepted and not yet taken, oldest first.
    pub pending: Seq<EventView>,
    /// The most events that may be pending at once.
    pub capacity: nat,
    /// The number of events refused so far; it stops counting at `u64::MAX`.
    pub dropped: nat,
}

/// An empty channel.
pub open spec fn channel_empty(capacity: nat) -> ChannelModel {
    ChannelModel { pending: Seq::empty(), capacity, dropped: 0 }
}

/// Whether the channel has room for one more event.
pub open spec fn channel_has_room(channel: ChannelModel) -> bool {
    channel.pending.len() < channel.capacity
}

/// The channel after `event` was offered: queued last if there is room,
/// else refused and counted.
pub open spec fn channel_offer(channel: ChannelModel, event: EventView) -> ChannelModel {
    if channel_has_room(channel) {
        ChannelModel { pending: channel.pending.push(event), ..channel }
    } else if channel.dropped < u64::MAX {
        ChannelModel { dropped: channel.dropped + 1, ..channel }
    } else {
        channel
    }
}

/// The channel after its oldest event, if it has one, was taken.
pub open spec fn channel_take(channel: ChannelModel) -> ChannelModel {
    if channel.pending.len() > 0 {
        ChannelModel { pending: channel.pending.drop_first(), ..channel }
    } else {
        channel
    }
}

impl View for SampleChannel {
    type V = ChannelModel;

    closed spec fn view(&self) -> ChannelModel {
        ChannelModel {
            pending: event_views(self.queue@),
            capacity: self.capacity as nat,
            dropped: self.dropped as nat,
        }
    }
}

impl SampleChannel {
    #[verifier::type_invariant]
    spec fn within_capacity(self) -> bool {
        self.queue@.len() <= self.capacity
    }

    /// An empty channel that holds at most `capacity` events.
    pub fn new(capacity: usize) -> (channel: SampleChannel)
        ensures
            channel@ == channel_empty(capacity as nat),
    {
        let channel = SampleChannel { queue: VecDeque::new(), capacity, dropped: 0 };
        proof {
            assert(channel@.pending =~= Seq::<EventView>::empty());
        }
        channel
    }

    /// Offers `event` without waiting. With room, the event is queued last.
    /// Without room the channel keeps what it holds, counts the refusal, and
    /// hands the event back.
    pub fn try_send(&mut self, event: RecordingEvent) -> (result: Result<(), RecordingEvent>)
        ensures
            final(self)@ == channel_offer(old(self)@, event@),
            result is Ok <==> channel_has_room(old(self)@),
            result matches Err(refused) ==> refused == event,
            final(self)@.pending.len() <= final(self)@.capacity,
    {
        proof {
            use_type_invariant(&*self);
        }
        if self.queue.len() < self.capacity {
            // The queue is moved out while it changes and put back changed, so
            // that the channel as a whole is never seen beyond its capacity.
            let mut taken = SampleChannel { queue: VecDeque::new(), capacity: 0, dropped: 0 };
            core::mem::swap(self, &mut taken);
            let SampleChannel { queue, capacity, dropped } = taken;
            let mut queue = queue;
            queue.push_back(event);
            *self = SampleChannel { queue, capacity, dropped };
            proof {
                assert(event_views(self.queue@) =~= event_views(old(self).queue@).push(event@));
            }
            Ok(())
        } else {
            if self.dropped < u64::MAX {
                self.dropped = self.dropped + 1;
            }
            Err(event)
        }
    }

    /// Takes the oldest pending event, if there is one.
    pub fn receive(&mut self) -> (event: Option<RecordingEvent>)
        ensures
            final(self)@ == channel_take(old(self)@),
            match event {
                Some(e) => old(self)@.pending.len() > 0 && e@ == old(self)@.pending[0],
                None => old(self)@.pending.len() == 0,
            },
    {
        proof {
            use_type_invariant(&*self);
        }
        let mut taken = SampleChannel { queue: VecDeque::new(), capacity: 0, dropped: 0 };
        core::mem::swap(self, &mut taken);
        let SampleChannel { queue, capacity, dropped } = taken;
        let mut queue = queue;
        let event = queue.pop_front();
        *self = SampleChannel { queue, capacity, dropped };
        proof {
            if event is Some {
                assert(event_views(self.queue@) =~= event_views(old(self).queue@).drop_first());
            }
        }
        event
    }

    /// The number of pending events.
    pub fn len(&self) -> (count: usize)
        ensures
            count == self@.pending.len(),
            count <= self@.capacity,
    {
        proof {
            use_type_invariant(self);
        }
        self.queue.len()
    }

    /// Whether no event is pending.
    pub fn is_empty(&self) -> (empty: bool)
        ensures
            empty == (self@.pending.len() == 0),
    {
        self.queue.len() == 0
    }

    /// Whether the next event offered would be refused.
    pub fn is_full(&self) -> (full: bool)
        ensures
            full == !channel_has_room(self@),
    {
        proof {
            use_type_invariant(self);
        }
        self.queue.len() >= self.capacity
    }

    /// The most events that may be pending at once.
    pub fn capacity(&self) -> (capacity: usize)
        ensures
            capacity == self@.capacity,
    {
        self.capacity
    }

    /// The number of events refused so far.
    pub fn dropped(&self) -> (count: u64)
        ensures
            count == self@.dropped,
    {
        self.dropped
    }
}

/// One use of the channel, by either side.
pub enum ChannelOp {
    /// The sender offers an event.
    Send(EventView),
    /// The receiver takes the oldest pending event, if any.
    Receive,
}

/// What has happened on a channel since it was made.
pub struct ChannelTrace {
    /// The channel as it is now.
    pub channel: ChannelModel,
    /// Every event offered, in the order of the offers.
    pub offered: Seq<EventView>,
    /// The events that were queued, in the order of the offers.
    pub accepted: Seq<EventView>,
    /// The events that the receiver took, in the order in which it took them.
    pub delivered: Seq<EventView>,
    /// The number of offers that were refused.
    pub refused: nat,
}

/// The trace of `ops`, applied in order to an empty channel.
pub open spec fn channel_run(capacity: nat, ops: Seq<ChannelOp>) -> ChannelTrace
    decreases ops.len(),
{
    if ops.len() == 0 {
        ChannelTrace {
            channel: channel_empty(capacity),
            offered: Seq::empty(),
            accepted: Seq::empty(),
            delivered: Seq::empty(),
            refused: 0,
        }
    } else {
        let before = channel_run(capacity, ops.drop_last());
        match ops.last() {
            ChannelOp::Send(event) => ChannelTrace {
                channel: channel_offer(before.channel, event),
                offered: before.offered.push(event),
                accepted: if channel_has_room(before.channel) {
                    before.accepted.push(event)
                } else {
                    before.accepted
                },
                refused: if channel_has_room(before.channel) {
                    before.refused
                } else {
                    before.refused + 1
                },
                ..before
            },
            ChannelOp::Receive => ChannelTrace {
                channel: channel_take(before.channel),
                delivered: if before.channel.pending.len() > 0 {
                    before.delivered.push(before.channel.pending[0])
                } else {
                    before.delivered
                },
                ..before
            },
        }
    }
}

/// However sends and receives interleave, the events delivered and then the
/// events pending are the accepted events in the order in which they were
/// offered; every offer was either accepted or refused; every refusal was
/// counted; and the channel never holds more than its capacity.
pub proof fn lemma_channel_keeps_order(capacity: nat, ops: Seq<ChannelOp>)
    requires
        ops.len() <= u64::MAX,
    ensures
        ({
            let trace = channel_run(capacity, ops);
            &&& trace.delivered + trace.channel.pending == trace.accepted
            &&& trace.accepted.len() + trace.refused == trace.offered.len()
            &&& trace.channel.dropped == trace.refused
            &&& trace.channel.pending.len() <= capacity
            &&& trace.channel.capacity == capacity
            &&& trace.offered.len() <= ops.len()
        }),
    decreases ops.len(),
{
    if ops.len() > 0 {
        lemma_channel_keeps_order(capacity, ops.drop_last());
        let before = channel_run(capacity, ops.drop_last());
        let trace = channel_run(capacity, ops);
        assert(trace.delivered + trace.channel.pending =~= trace.accepted);
    } else {
        let trace = channel_run(capacity, ops);
        assert(trace.delivered + trace.channel.pending =~= trace.accepted);
    }
}

/// While no offer has been refused, nothing is missing: the events
/// delivered and then the events pending are all the events offered, in the
/// order of the offers.
pub proof fn lemma_channel_without_drops(capacity: nat, ops: Seq<ChannelOp>)
    requires
        ops.len() <= u64::MAX,
        channel_run(capacity, ops).channel.dropped == 0,
    ensures
        ({
            let trace = channel_run(capacity, ops);
            trace.delivered + trace.channel.pending == trace.offered
        }),
    decreases ops.len(),
{
    lemma_channel_keeps_order(capacity, ops);
    if ops.len() > 0 {
        let before = channel_run(capacity, ops.drop_last());
        lemma_channel_keeps_order(capacity, ops.drop_last());
        lemma_channel_without_drops(capacity, ops.drop_last());
        let trace = channel_run(capacity, ops);
        assert(trace.accepted =~= trace.offered);
    } else {
        let trace = channel_run(capacity, ops);
        assert(trace.delivered + trace.channel.pending =~= trace.offered);
    }
}

} // verus!

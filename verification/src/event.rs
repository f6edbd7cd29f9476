//! The messages that travel from the capture side to the segment writer,
//! and the order in which they may follow one another.

use crate::sample::Sample;
use vstd::prelude::*;

verus! {

/// One message from the capture side to the segment writer.
#[derive(Clone, Debug, PartialEq, Eq)]
pub enum RecordingEvent {
    /// A segment begins; its samples go to the file at this destination.
    Start(String),
    /// The segment that is under way ends.
    Stop,
    /// The next block of samples of the segment that is under way.
    Data(Vec<Sample>),
}

/// What a `RecordingEvent` says, as a mathematical value.
pub enum EventView {
    Start(Seq<char>),
    Stop,
    Data(Seq<Sample>),
}

impl View for RecordingEvent {
    type V = EventView;

    open spec fn view(&self) -> EventView {
        match self {
            RecordingEvent::Start(path) => EventView::Start(path@),
            RecordingEvent::Stop => EventView::Stop,
            RecordingEvent::Data(block) => EventView::Data(block@),
        }
    }
}

/// The views of a run of events, in order.
pub open spec fn event_views(events: Seq<RecordingEvent>) -> Seq<EventView> {
    events.map_values(|e: RecordingEvent| e@)
}

/// Whether `next` may directly follow `previous`: after a `Stop` only a
/// `Start` may come, and a `Start` may come only after a `Stop`.
pub open spec fn may_follow(previous: EventView, next: EventView) -> bool {
    (previous is Stop) == (next is Start)
}

/// The stream grammar `(Start Data* Stop)*`, possibly cut off inside the
/// last segment: the first event is a `Start`, and every event may follow
/// the one before it.
pub open spec fn follows_protocol(events: Seq<EventView>) -> bool {
    &&& events.len() > 0 ==> events[0] is Start
    &&& forall|i: int| 0 <= i < events.len() - 1 ==> may_follow(events[i], #[trigger] events[i + 1])
}

/// Whether a segment is under way after `events`.
pub open spec fn segment_open(events: Seq<EventView>) -> bool {
    events.len() > 0 && !(events.last() is Stop)
}

/// The blocks that `events` carries, in order.
pub open spec fn data_blocks(events: Seq<EventView>) -> Seq<Seq<Sample>>
    decreases events.len(),
{
    if events.len() == 0 {
        Seq::empty()
    } else {
        let before = data_blocks(events.drop_last());
        match events.last() {
            EventView::Data(block) => before.push(block),
            _ => before,
        }
    }
}

/// The destinations that `events` announces, in order.
pub open spec fn start_paths(events: Seq<EventView>) -> Seq<Seq<char>>
    decreases events.len(),
{
    if events.len() == 0 {
        Seq::empty()
    } else {
        let before = start_paths(events.drop_last());
        match events.last() {
            EventView::Start(path) => before.push(path),
            _ => before,
        }
    }
}

/// In a stream that follows the protocol no `Start` directly follows a
/// `Start`, no `Stop` directly follows a `Stop`, and no `Data` or `Stop`
/// comes first or directly after a `Stop`.
pub proof fn lemma_protocol_alternates(events: Seq<EventView>, i: int)
    requires
        follows_protocol(events),
        0 <= i < events.len(),
    ensures
        i == 0 ==> events[i] is Start,
        i > 0 && events[i - 1] is Start ==> !(events[i] is Start),
        i > 0 && events[i - 1] is Stop ==> events[i] is Start,
        i > 0 && events[i - 1] is Data ==> !(events[i] is Start),
{
    if i > 0 {
        assert(may_follow(events[i - 1], events[(i - 1) + 1]));
    }
}

/// A stream that follows the protocol still does so when cut off anywhere.
pub proof fn lemma_protocol_prefix(events: Seq<EventView>, len: int)
    requires
        follows_protocol(events),
        0 <= len <= events.len(),
    ensures
        follows_protocol(events.subrange(0, len)),
{
    let prefix = events.subrange(0, len);
    assert forall|i: int| 0 <= i < prefix.len() - 1 implies may_follow(
        prefix[i],
        #[trigger] prefix[i + 1],
    ) by {
        assert(may_follow(events[i], events[i + 1]));
    }
}

/// Adding an event that may follow the last one keeps the protocol.
pub proof fn lemma_protocol_push(events: Seq<EventView>, next: EventView)
    requires
        follows_protocol(events),
        segment_open(events) != (next is Start),
    ensures
        follows_protocol(events.push(next)),
        segment_open(events.push(next)) == !(next is Stop),
{
    let all = events.push(next);
    assert forall|i: int| 0 <= i < all.len() - 1 implies may_follow(all[i], #[trigger] all[i + 1]) by {
        if i + 1 < events.len() {
            assert(may_follow(events[i], events[i + 1]));
        }
    }
}

/// The blocks of two runs of events, one after the other.
pub proof fn lemma_data_blocks_append(first: Seq<EventView>, second: Seq<EventView>)
    ensures
        data_blocks(first + second) == data_blocks(first) + data_blocks(second),
    decreases second.len(),
{
    if second.len() == 0 {
        assert(first + second =~= first);
        assert(data_blocks(first) + data_blocks(second) =~= data_blocks(first));
    } else {
        lemma_data_blocks_append(first, second.drop_last());
        assert((first + second).drop_last() =~= first + second.drop_last());
        assert(data_blocks(first + second) =~= data_blocks(first) + data_blocks(second));
    }
}

/// The destinations of two runs of events, one after the other.
pub proof fn lemma_start_paths_append(first: Seq<EventView>, second: Seq<EventView>)
    ensures
        start_paths(first + second) == start_paths(first) + start_paths(second),
    decreases second.len(),
{
    if second.len() == 0 {
        assert(first + second =~= first);
        assert(start_paths(first) + start_paths(second) =~= start_paths(first));
    } else {
        lemma_start_paths_append(first, second.drop_last());
        assert((first + second).drop_last() =~= first + second.drop_last());
        assert(start_paths(first + second) =~= start_paths(first) + start_paths(second));
    }
}

} // verus!

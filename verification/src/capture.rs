//! The capture state machine: turns the per-callback observation of the
//! recording flag into the start, data and stop events of segments.

use crate::event::{
    data_blocks, event_views, follows_protocol, lemma_data_blocks_append, lemma_protocol_push,
    lemma_start_paths_append, segment_open, start_paths, EventView, RecordingEvent,
};
use crate::gate::RecordingGate;
use crate::sample::Sample;
use crate::segment::{segment_file_path, segment_path};
use vstd::prelude::*;

verus! {

/// The capture side of a recording session. It is idle until the flag is
/// observed raised, records while it stays raised, and is idle again once
/// it is observed lowered.
pub struct CaptureDriver {
    session_dir: String,
    recording: bool,
    next_index: u64,
}

/// The capture driver as a mathematical value.
pub struct CaptureModel {
    /// The session directory, in which the segment files lie.
    pub dir: Seq<char>,
    /// Whether a segment is under way.
    pub recording: bool,
    /// The number of segments begun so far, which numbers the next one.
    pub next_index: nat,
}

/// What one audio callback delivers: the flag as observed, and a block.
pub struct Callback {
    pub requested: bool,
    pub block: Seq<Sample>,
}

/// The driver before the first callback: idle, no segment begun.
pub open spec fn capture_start(dir: Seq<char>) -> CaptureModel {
    CaptureModel { dir, recording: false, next_index: 0 }
}

/// One callback: the next state and the events to send, in order.
///
/// * flag raised while idle: a `Start` with a fresh destination, then the
///   block; the driver records and the segment counter advances;
/// * flag raised while recording: the block;
/// * flag lowered while recording: a `Stop`; the block is not recorded;
/// * flag lowered while idle: nothing; the block is not recorded.
pub open spec fn capture_step(state: CaptureModel, requested: bool, block: Seq<Sample>) -> (
    CaptureModel,
    Seq<EventView>,
) {
    if requested {
        if state.recording {
            (state, seq![EventView::Data(block)])
        } else {
            (
                CaptureModel { recording: true, next_index: state.next_index + 1, ..state },
                seq![
                    EventView::Start(segment_path(state.dir, state.next_index)),
                    EventView::Data(block),
                ],
            )
        }
    } else {
        if state.recording {
            (CaptureModel { recording: false, ..state }, seq![EventView::Stop])
        } else {
            (state, Seq::empty())
        }
    }
}

/// A whole session: the state after `inputs`, and every event sent.
pub open spec fn capture_run(dir: Seq<char>, inputs: Seq<Callback>) -> (
    CaptureModel,
    Seq<EventView>,
)
    decreases inputs.len(),
{
    if inputs.len() == 0 {
        (capture_start(dir), Seq::empty())
    } else {
        let (state, sent) = capture_run(dir, inputs.drop_last());
        let (next, events) = capture_step(state, inputs.last().requested, inputs.last().block);
        (next, sent + events)
    }
}

/// The blocks of those callbacks that observed the flag raised, in order.
pub open spec fn requested_blocks(inputs: Seq<Callback>) -> Seq<Seq<Sample>>
    decreases inputs.len(),
{
    if inputs.len() == 0 {
        Seq::empty()
    } else {
        let before = requested_blocks(inputs.drop_last());
        if inputs.last().requested {
            before.push(inputs.last().block)
        } else {
            before
        }
    }
}

impl View for CaptureDriver {
    type V = CaptureModel;

    closed spec fn view(&self) -> CaptureModel {
        CaptureModel {
            dir: self.session_dir@,
            recording: self.recording,
            next_index: self.next_index as nat,
        }
    }
}

impl CaptureDriver {
    /// A driver for the session whose segment files go to `session_dir`.
    pub fn new(session_dir: String) -> (driver: CaptureDriver)
        ensures
            driver@ == capture_start(session_dir@),
    {
        CaptureDriver { session_dir, recording: false, next_index: 0 }
    }

    /// Whether a segment is under way.
    pub fn is_recording(&self) -> (recording: bool)
        ensures
            recording == self@.recording,
    {
        self.recording
    }

    /// The number of segments begun so far.
    pub fn segments_started(&self) -> (count: u64)
        ensures
            count == self@.next_index,
    {
        self.next_index
    }

    /// Handles one callback that observed the flag as `requested` and
    /// delivered `block`; returns the events to send, in order.
    ///
    /// A segment can begin only while the segment counter can still advance.
    pub fn on_block(&mut self, requested: bool, block: Vec<Sample>) -> (events: Vec<RecordingEvent>)
        requires
            requested && !old(self)@.recording ==> old(self)@.next_index < u64::MAX,
        ensures
            (final(self)@, event_views(events@)) == capture_step(old(self)@, requested, block@),
    {
        let mut events: Vec<RecordingEvent> = Vec::new();
        if requested {
            if !self.recording {
                let path = segment_file_path(self.session_dir.as_str(), self.next_index);
                events.push(RecordingEvent::Start(path));
                self.recording = true;
                self.next_index = self.next_index + 1;
            }
            events.push(RecordingEvent::Data(block));
        } else if self.recording {
            self.recording = false;
            events.push(RecordingEvent::Stop);
        }
        proof {
            assert(event_views(events@) =~= capture_step(old(self)@, requested, block@).1);
        }
        events
    }

    /// Handles one callback that delivered `block`: observes the flag once
    /// and acts on what it saw, as `on_block` does.
    pub fn capture(&mut self, gate: &RecordingGate, block: Vec<Sample>) -> (events: Vec<
        RecordingEvent,
    >)
        requires
            !old(self)@.recording ==> old(self)@.next_index < u64::MAX,
        ensures
            exists|requested: bool|
                (final(self)@, event_views(events@)) == #[trigger] capture_step(
                    old(self)@,
                    requested,
                    block@,
                ),
    {
        let requested = gate.get();
        self.on_block(requested, block)
    }
}

/// The events of a session follow the protocol, whatever the flag did, and
/// a segment is under way after them exactly when the driver records.
pub proof fn lemma_capture_follows_protocol(dir: Seq<char>, inputs: Seq<Callback>)
    ensures
        follows_protocol(capture_run(dir, inputs).1),
        segment_open(capture_run(dir, inputs).1) == capture_run(dir, inputs).0.recording,
    decreases inputs.len(),
{
    if inputs.len() > 0 {
        lemma_capture_follows_protocol(dir, inputs.drop_last());
        let (state, sent) = capture_run(dir, inputs.drop_last());
        let (next, events) = capture_step(state, inputs.last().requested, inputs.last().block);
        if events.len() == 0 {
            assert(sent + events =~= sent);
        } else if events.len() == 1 {
            lemma_protocol_push(sent, events[0]);
            assert(sent + events =~= sent.push(events[0]));
        } else {
            lemma_protocol_push(sent, events[0]);
            lemma_protocol_push(sent.push(events[0]), events[1]);
            assert(sent + events =~= sent.push(events[0]).push(events[1]));
        }
    }
}

/// The blocks sent are exactly the blocks of the callbacks that observed the
/// flag raised, in order: no block that arrives while the flag is lowered is
/// ever forwarded, and none that arrives while it is raised is lost.
pub proof fn lemma_forwarded_blocks(dir: Seq<char>, inputs: Seq<Callback>)
    ensures
        data_blocks(capture_run(dir, inputs).1) == requested_blocks(inputs),
    decreases inputs.len(),
{
    if inputs.len() > 0 {
        lemma_forwarded_blocks(dir, inputs.drop_last());
        let (state, sent) = capture_run(dir, inputs.drop_last());
        let (next, events) = capture_step(state, inputs.last().requested, inputs.last().block);
        lemma_data_blocks_append(sent, events);
        reveal_with_fuel(data_blocks, 3);
        assert(data_blocks(sent + events) =~= requested_blocks(inputs));
    }
}

/// While the flag has never been observed raised, nothing at all is sent.
pub proof fn lemma_lowered_gate_sends_nothing(dir: Seq<char>, inputs: Seq<Callback>)
    requires
        forall|i: int| 0 <= i < inputs.len() ==> !inputs[i].requested,
    ensures
        capture_run(dir, inputs) == (capture_start(dir), Seq::<EventView>::empty()),
    decreases inputs.len(),
{
    if inputs.len() > 0 {
        lemma_lowered_gate_sends_nothing(dir, inputs.drop_last());
        assert(capture_run(dir, inputs).1 =~= Seq::<EventView>::empty());
    }
}

/// The segments of a session go to the destinations numbered 0, 1, 2, ...
/// of the session directory, in that order.
pub proof fn lemma_segment_numbering(dir: Seq<char>, inputs: Seq<Callback>)
    ensures
        capture_run(dir, inputs).0.dir == dir,
        start_paths(capture_run(dir, inputs).1) == Seq::new(
            capture_run(dir, inputs).0.next_index,
            |i: int| segment_path(dir, i as nat),
        ),
    decreases inputs.len(),
{
    let numbered = |i: int| segment_path(dir, i as nat);
    if inputs.len() > 0 {
        lemma_segment_numbering(dir, inputs.drop_last());
        let (state, sent) = capture_run(dir, inputs.drop_last());
        let (next, events) = capture_step(state, inputs.last().requested, inputs.last().block);
        lemma_start_paths_append(sent, events);
        reveal_with_fuel(start_paths, 3);
        assert(start_paths(sent + events) =~= Seq::new(next.next_index, numbered));
    } else {
        assert(start_paths(capture_run(dir, inputs).1) =~= Seq::new(0, numbered));
    }
}

} // verus!

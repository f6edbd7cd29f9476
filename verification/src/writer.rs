//! The segment writer's decisions.
//!
//! The writer takes the recording events in the order in which they were
//! sent and answers each with the file operations to perform and the faults
//! to report. It performs no file operation itself: whoever owns the file
//! carries out the actions in order and tells the writer when creating the
//! file or appending to it failed.

use crate::event::{
    follows_protocol, lemma_protocol_prefix, may_follow, segment_open, start_paths, EventView,
    RecordingEvent,
};
use crate::sample::{
    decode_samples, encode_block, encode_samples, lemma_decode_encode, lemma_encode_concat, Sample,
};
use vstd::prelude::*;

verus! {

/// What the writer knows of the segment file.
#[derive(Clone, Copy, Debug, PartialEq, Eq, Structural)]
pub enum WriterState {
    /// No segment is under way and no file is open.
    Idle,
    /// A segment is under way and its file is open.
    Open,
    /// A segment is under way, but its file could not be created or
    /// written; no file is open, and the segment's data is refused.
    Abandoned,
}

/// A fault that the writer reports and recovers from.
#[derive(Clone, Copy, Debug, PartialEq, Eq, Structural)]
pub enum WriterFault {
    /// A segment began while the file of the one before was still open.
    StartWhileOpen,
    /// Samples arrived while no file was open; they were discarded.
    DataWithoutSegment,
    /// A segment was ended while none was under way.
    StopWithoutSegment,
    /// The file of a segment could not be created.
    CreateFailed,
    /// Appending to the file of a segment failed.
    WriteFailed,
}

/// One thing for the owner of the file to do.
#[derive(Clone, Debug, PartialEq, Eq)]
pub enum WriterAction {
    /// Create the file at this destination, empty, and keep it open.
    Create(String),
    /// Append these bytes to the open file.
    Append(Vec<u8>),
    /// Flush the open file and close it.
    Close,
    /// Report this fault.
    Report(WriterFault),
}

/// What a `WriterAction` says, as a mathematical value.
pub enum ActionView {
    Create(Seq<char>),
    Append(Seq<u8>),
    Close,
    Report(WriterFault),
}

impl View for WriterAction {
    type V = ActionView;

    open spec fn view(&self) -> ActionView {
        match self {
            WriterAction::Create(path) => ActionView::Create(path@),
            WriterAction::Append(bytes) => ActionView::Append(bytes@),
            WriterAction::Close => ActionView::Close,
            WriterAction::Report(fault) => ActionView::Report(*fault),
        }
    }
}

/// The views of a run of actions, in order.
pub open spec fn action_views(actions: Seq<WriterAction>) -> Seq<ActionView> {
    actions.map_values(|a: WriterAction| a@)
}

/// What can happen to the writer.
pub enum WriterInput {
    /// The next recording event arrived.
    Event(EventView),
    /// The file that the writer last asked for could not be created.
    CreateFailed,
    /// The bytes that the writer last handed out could not be appended.
    WriteFailed,
    /// The session ends.
    Shutdown,
}

/// The writer's answer to one input: its next state and the actions to
/// perform, in order.
///
/// * `Start`: create the file. If a file is still open, that is reported
///   and the file is closed first.
/// * `Data`: with an open file, append the block's file image; otherwise
///   report the block as discarded.
/// * `Stop`: with an open file, close it. After an abandoned segment there
///   is nothing to do; with no segment under way the stop is reported.
/// * a failed create or append: report it and abandon the segment; after a
///   failed append the file is closed.
/// * shutdown: close the file if one is open.
pub open spec fn writer_step(state: WriterState, input: WriterInput) -> (
    WriterState,
    Seq<ActionView>,
) {
    match input {
        WriterInput::Event(EventView::Start(path)) => match state {
            WriterState::Open => (
                WriterState::Open,
                seq![
                    ActionView::Report(WriterFault::StartWhileOpen),
                    ActionView::Close,
                    ActionView::Create(path),
                ],
            ),
            _ => (WriterState::Open, seq![ActionView::Create(path)]),
        },
        WriterInput::Event(EventView::Data(block)) => match state {
            WriterState::Open => (
                WriterState::Open,
                seq![ActionView::Append(encode_samples(block))],
            ),
            _ => (state, seq![ActionView::Report(WriterFault::DataWithoutSegment)]),
        },
        WriterInput::Event(EventView::Stop) => match state {
            WriterState::Open => (WriterState::Idle, seq![ActionView::Close]),
            WriterState::Abandoned => (WriterState::Idle, Seq::empty()),
            WriterState::Idle => (
                WriterState::Idle,
                seq![ActionView::Report(WriterFault::StopWithoutSegment)],
            ),
        },
        WriterInput::CreateFailed => match state {
            WriterState::Open => (
                WriterState::Abandoned,
                seq![ActionView::Report(WriterFault::CreateFailed)],
            ),
            _ => (state, Seq::empty()),
        },
        WriterInput::WriteFailed => match state {
            WriterState::Open => (
                WriterState::Abandoned,
                seq![ActionView::Report(WriterFault::WriteFailed), ActionView::Close],
            ),
            _ => (state, Seq::empty()),
        },
        WriterInput::Shutdown => match state {
            WriterState::Open => (WriterState::Idle, seq![ActionView::Close]),
            _ => (WriterState::Idle, Seq::empty()),
        },
    }
}

/// The writer's state after `inputs`, and every action it asked for.
pub open spec fn writer_run(state: WriterState, inputs: Seq<WriterInput>) -> (
    WriterState,
    Seq<ActionView>,
)
    decreases inputs.len(),
{
    if inputs.len() == 0 {
        (state, Seq::empty())
    } else {
        let (before, done) = writer_run(state, inputs.drop_last());
        let (next, actions) = writer_step(before, inputs.last());
        (next, done + actions)
    }
}

/// The arrival of each of `events`, in order.
pub open spec fn arrivals(events: Seq<EventView>) -> Seq<WriterInput> {
    events.map_values(|e: EventView| WriterInput::Event(e))
}

/// The segment writer: the state machine behind `writer_step`.
pub struct SegmentWriter {
    state: WriterState,
}

impl View for SegmentWriter {
    type V = WriterState;

    closed spec fn view(&self) -> WriterState {
        self.state
    }
}

impl SegmentWriter {
    /// A writer with no segment under way.
    pub fn new() -> (writer: SegmentWriter)
        ensures
            writer@ == WriterState::Idle,
    {
        SegmentWriter { state: WriterState::Idle }
    }

    /// What the writer knows of the segment file.
    pub fn state(&self) -> (state: WriterState)
        ensures
            state == self@,
    {
        self.state
    }

    /// Takes the next recording event; returns what is to be done, in order.
    pub fn on_event(&mut self, event: RecordingEvent) -> (actions: Vec<WriterAction>)
        ensures
            (final(self)@, action_views(actions@)) == writer_step(
                old(self)@,
                WriterInput::Event(event@),
            ),
    {
        let mut actions: Vec<WriterAction> = Vec::new();
        match event {
            RecordingEvent::Start(path) => {
                match self.state {
                    WriterState::Open => {
                        actions.push(WriterAction::Report(WriterFault::StartWhileOpen));
                        actions.push(WriterAction::Close);
                    },
                    _ => {},
                }
                actions.push(WriterAction::Create(path));
                self.state = WriterState::Open;
            },
            RecordingEvent::Data(block) => {
                match self.state {
                    WriterState::Open => {
                        actions.push(WriterAction::Append(encode_block(&block)));
                    },
                    _ => {
                        // The block belongs to no open file: it is dropped, and said to be.
                        actions.push(WriterAction::Report(WriterFault::DataWithoutSegment));
                    },
                }
            },
            RecordingEvent::Stop => {
                match self.state {
                    WriterState::Open => {
                        actions.push(WriterAction::Close);
                    },
                    WriterState::Abandoned => {},
                    WriterState::Idle => {
                        actions.push(WriterAction::Report(WriterFault::StopWithoutSegment));
                    },
                }
                self.state = WriterState::Idle;
            },
        }
        proof {
            assert(action_views(actions@) =~= writer_step(
                old(self)@,
                WriterInput::Event(event@),
            ).1);
        }
        actions
    }

    /// Takes note that the file last asked for could not be created.
    pub fn on_create_failed(&mut self) -> (actions: Vec<WriterAction>)
        ensures
            (final(self)@, action_views(actions@)) == writer_step(
                old(self)@,
                WriterInput::CreateFailed,
            ),
    {
        let mut actions: Vec<WriterAction> = Vec::new();
        match self.state {
            WriterState::Open => {
                actions.push(WriterAction::Report(WriterFault::CreateFailed));
                self.state = WriterState::Abandoned;
            },
            _ => {},
        }
        proof {
            assert(action_views(actions@) =~= writer_step(old(self)@, WriterInput::CreateFailed).1);
        }
        actions
    }

    /// Takes note that the bytes last handed out could not be appended.
    pub fn on_write_failed(&mut self) -> (actions: Vec<WriterAction>)
        ensures
            (final(self)@, action_views(actions@)) == writer_step(
                old(self)@,
                WriterInput::WriteFailed,
            ),
    {
        let mut actions: Vec<WriterAction> = Vec::new();
        match self.state {
            WriterState::Open => {
                actions.push(WriterAction::Report(WriterFault::WriteFailed));
                actions.push(WriterAction::Close);
                self.state = WriterState::Abandoned;
            },
            _ => {},
        }
        proof {
            assert(action_views(actions@) =~= writer_step(old(self)@, WriterInput::WriteFailed).1);
        }
        actions
    }

    /// Ends the session: an open file is closed.
    pub fn shutdown(&mut self) -> (actions: Vec<WriterAction>)
        ensures
            (final(self)@, action_views(actions@)) == writer_step(
                old(self)@,
                WriterInput::Shutdown,
            ),
    {
        let mut actions: Vec<WriterAction> = Vec::new();
        match self.state {
            WriterState::Open => {
                actions.push(WriterAction::Close);
            },
            _ => {},
        }
        self.state = WriterState::Idle;
        proof {
            assert(action_views(actions@) =~= writer_step(old(self)@, WriterInput::Shutdown).1);
        }
        actions
    }
}

/// One file as the actions leave it.
pub struct SegmentFile {
    pub path: Seq<char>,
    pub bytes: Seq<u8>,
}

/// One segment as the events describe it.
pub struct Segment {
    pub path: Seq<char>,
    pub samples: Seq<Sample>,
}

/// The files that exist once `actions` have been performed, none of them
/// failing, in the order of their creation: each holds what was appended
/// between its creation and the next.
pub open spec fn files_written(actions: Seq<ActionView>) -> Seq<SegmentFile>
    decreases actions.len(),
{
    if actions.len() == 0 {
        Seq::empty()
    } else {
        let before = files_written(actions.drop_last());
        match actions.last() {
            ActionView::Create(path) => before.push(SegmentFile { path, bytes: Seq::empty() }),
            ActionView::Append(bytes) => if before.len() > 0 {
                before.update(
                    before.len() - 1,
                    SegmentFile { bytes: before.last().bytes + bytes, ..before.last() },
                )
            } else {
                before
            },
            _ => before,
        }
    }
}

/// The segments that `events` describe, in order: each holds the samples
/// of the blocks between its start and the next.
pub open spec fn segments_recorded(events: Seq<EventView>) -> Seq<Segment>
    decreases events.len(),
{
    if events.len() == 0 {
        Seq::empty()
    } else {
        let before = segments_recorded(events.drop_last());
        match events.last() {
            EventView::Start(path) => before.push(Segment { path, samples: Seq::empty() }),
            EventView::Data(block) => if before.len() > 0 {
                before.update(
                    before.len() - 1,
                    Segment { samples: before.last().samples + block, ..before.last() },
                )
            } else {
                before
            },
            EventView::Stop => before,
        }
    }
}

/// The action that an event asks for when it comes in its place.
pub open spec fn action_in_order(event: EventView) -> ActionView {
    match event {
        EventView::Start(path) => ActionView::Create(path),
        EventView::Data(block) => ActionView::Append(encode_samples(block)),
        EventView::Stop => ActionView::Close,
    }
}

/// Ending a segment twice in a row closes the file once: the first stop
/// closes the file if one is open, the second finds no segment, is
/// reported once, and asks for no file operation.
pub proof fn lemma_double_stop(state: WriterState)
    ensures
        ({
            let stop = WriterInput::Event(EventView::Stop);
            let (after_first, first) = writer_step(state, stop);
            let (after_second, second) = writer_step(after_first, stop);
            &&& state == WriterState::Open ==> first == seq![ActionView::Close]
            &&& state == WriterState::Abandoned ==> first == Seq::<ActionView>::empty()
            &&& state == WriterState::Idle ==> first == seq![
                ActionView::Report(WriterFault::StopWithoutSegment),
            ]
            &&& after_first == WriterState::Idle
            &&& second == seq![ActionView::Report(WriterFault::StopWithoutSegment)]
            &&& after_second == WriterState::Idle
        }),
{
}

/// Samples that arrive while no file is open are reported once and written
/// nowhere, and the writer then takes the next start as it would have.
pub proof fn lemma_stray_data(state: WriterState, block: Seq<Sample>, path: Seq<char>)
    requires
        state != WriterState::Open,
    ensures
        ({
            let (after_data, answer) = writer_step(state, WriterInput::Event(EventView::Data(block)));
            let (after_start, begun) = writer_step(
                after_data,
                WriterInput::Event(EventView::Start(path)),
            );
            &&& answer == seq![ActionView::Report(WriterFault::DataWithoutSegment)]
            &&& after_data == state
            &&& begun == seq![ActionView::Create(path)]
            &&& after_start == WriterState::Open
        }),
{
}

/// Events that follow the protocol are answered one for one, by a create,
/// an append or a close; no fault is reported, and a file is open
/// afterwards exactly when a segment is under way.
pub proof fn lemma_writer_follows_events(events: Seq<EventView>)
    requires
        follows_protocol(events),
    ensures
        writer_run(WriterState::Idle, arrivals(events)).1 == events.map_values(
            |e: EventView| action_in_order(e),
        ),
        writer_run(WriterState::Idle, arrivals(events)).0 == if segment_open(events) {
            WriterState::Open
        } else {
            WriterState::Idle
        },
    decreases events.len(),
{
    let answer = |e: EventView| action_in_order(e);
    if events.len() == 0 {
        assert(writer_run(WriterState::Idle, arrivals(events)).1 =~= events.map_values(answer));
    } else {
        let before = events.drop_last();
        lemma_protocol_prefix(events, events.len() - 1);
        lemma_writer_follows_events(before);
        assert(arrivals(events).drop_last() =~= arrivals(before));
        if before.len() > 0 {
            assert(may_follow(events[events.len() - 2], events[(events.len() - 2) + 1]));
        }
        let (state, done) = writer_run(WriterState::Idle, arrivals(before));
        let (next, actions) = writer_step(state, arrivals(events).last());
        assert(actions =~= seq![action_in_order(events.last())]);
        assert(done + actions =~= events.map_values(answer));
    }
}

/// A recorded segment reads back as it was sent: for events that follow
/// the protocol, the writer's actions leave one file per segment, at the
/// segment's destination, whose bytes are the file image of the segment's
/// samples, and decoding those bytes yields the very same samples.
pub proof fn lemma_segments_round_trip(events: Seq<EventView>)
    requires
        follows_protocol(events),
    ensures
        ({
            let files = files_written(writer_run(WriterState::Idle, arrivals(events)).1);
            let segments = segments_recorded(events);
            &&& files.len() == segments.len()
            &&& events.len() > 0 ==> segments.len() > 0
            &&& forall|i: int|
                0 <= i < segments.len() ==> {
                    &&& (#[trigger] files[i]).path == segments[i].path
                    &&& files[i].bytes == encode_samples(segments[i].samples)
                    &&& decode_samples(files[i].bytes) == segments[i].samples
                }
        }),
    decreases events.len(),
{
    let answer = |e: EventView| action_in_order(e);
    lemma_writer_follows_events(events);
    if events.len() > 0 {
        let before = events.drop_last();
        lemma_protocol_prefix(events, events.len() - 1);
        lemma_segments_round_trip(before);
        lemma_writer_follows_events(before);
        let actions = events.map_values(answer);
        assert(actions.drop_last() =~= before.map_values(answer));
        let files_before = files_written(before.map_values(answer));
        let segments_before = segments_recorded(before);
        let files = files_written(actions);
        let segments = segments_recorded(events);
        match events.last() {
            EventView::Data(block) => {
                let last = segments_before.last();
                assert(files_before[files_before.len() - 1].bytes == encode_samples(last.samples));
                lemma_encode_concat(last.samples, block);
            },
            _ => {},
        }
        assert forall|i: int| 0 <= i < segments.len() implies {
            &&& (#[trigger] files[i]).path == segments[i].path
            &&& files[i].bytes == encode_samples(segments[i].samples)
            &&& decode_samples(files[i].bytes) == segments[i].samples
        } by {
            lemma_decode_encode(segments[i].samples);
            assert(encode_samples(Seq::<Sample>::empty()) =~= Seq::<u8>::empty());
        }
    }
}

/// Each segment that the events describe lies at the destination that its
/// start announced.
pub proof fn lemma_segment_paths(events: Seq<EventView>)
    ensures
        segments_recorded(events).len() == start_paths(events).len(),
        forall|i: int|
            0 <= i < start_paths(events).len() ==> (#[trigger] segments_recorded(events)[i]).path
                == start_paths(events)[i],
    decreases events.len(),
{
    if events.len() > 0 {
        lemma_segment_paths(events.drop_last());
    }
}

/// The number of files open once `actions` have been performed, none of
/// them failing: one more for each create, one fewer for each close.
pub open spec fn open_files(actions: Seq<ActionView>) -> int
    decreases actions.len(),
{
    if actions.len() == 0 {
        0
    } else {
        let before = open_files(actions.drop_last());
        match actions.last() {
            ActionView::Create(_) => before + 1,
            ActionView::Close => before - 1,
            _ => before,
        }
    }
}

/// Whether `inputs` holds no failure of a file operation.
pub open spec fn without_failures(inputs: Seq<WriterInput>) -> bool {
    forall|i: int|
        0 <= i < inputs.len() ==> (#[trigger] inputs[i]) is Event || inputs[i] is Shutdown
}

/// The number of files that the writer believes open.
pub open spec fn files_held(state: WriterState) -> int {
    if state == WriterState::Open {
        1
    } else {
        0
    }
}

proof fn lemma_open_files_append(first: Seq<ActionView>, second: Seq<ActionView>)
    ensures
        open_files(first + second) == open_files(first) + open_files(second),
    decreases second.len(),
{
    if second.len() == 0 {
        assert(first + second =~= first);
    } else {
        lemma_open_files_append(first, second.drop_last());
        assert((first + second).drop_last() =~= first + second.drop_last());
    }
}

proof fn lemma_step_one_file(state: WriterState, input: WriterInput, k: int)
    requires
        input is Event || input is Shutdown,
        0 <= k <= writer_step(state, input).1.len(),
    ensures
        ({
            let (next, actions) = writer_step(state, input);
            let open = files_held(state) + open_files(actions.subrange(0, k));
            &&& 0 <= open <= 1
            &&& k == actions.len() ==> open == files_held(next)
            &&& k < actions.len() && actions[k] is Create ==> open == 0
            &&& k < actions.len() && (actions[k] is Append || actions[k] is Close) ==> open == 1
        }),
{
    reveal_with_fuel(open_files, 4);
}

/// The writer never has two files open. Whatever events arrive, in
/// whatever order, and wherever the session ends: at every point of the
/// actions it asks for, at most one file is open; it creates a file only
/// while none is open, and appends and closes only while one is.
pub proof fn lemma_one_file_at_a_time(inputs: Seq<WriterInput>, k: int)
    requires
        without_failures(inputs),
        0 <= k <= writer_run(WriterState::Idle, inputs).1.len(),
    ensures
        ({
            let (state, actions) = writer_run(WriterState::Idle, inputs);
            let open = open_files(actions.subrange(0, k));
            &&& 0 <= open <= 1
            &&& k == actions.len() ==> open == files_held(state)
            &&& k < actions.len() && actions[k] is Create ==> open == 0
            &&& k < actions.len() && (actions[k] is Append || actions[k] is Close) ==> open == 1
        }),
    decreases inputs.len(),
{
    let (state, actions) = writer_run(WriterState::Idle, inputs);
    if inputs.len() == 0 {
        assert(actions.subrange(0, k) =~= Seq::<ActionView>::empty());
    } else {
        let (before, done) = writer_run(WriterState::Idle, inputs.drop_last());
        let (next, last) = writer_step(before, inputs.last());
        assert(without_failures(inputs.drop_last())) by {
            assert forall|i: int| 0 <= i < inputs.drop_last().len() implies (
            #[trigger] inputs.drop_last()[i]) is Event || inputs.drop_last()[i] is Shutdown by {
                assert(inputs.drop_last()[i] == inputs[i]);
            }
        }
        if k < done.len() {
            lemma_one_file_at_a_time(inputs.drop_last(), k);
            assert(actions.subrange(0, k) =~= done.subrange(0, k));
            assert(actions[k] == done[k]);
        } else {
            lemma_one_file_at_a_time(inputs.drop_last(), done.len() as int);
            assert(done.subrange(0, done.len() as int) =~= done);
            lemma_step_one_file(before, inputs.last(), k - done.len());
            lemma_open_files_append(done, last.subrange(0, k - done.len()));
            assert(actions.subrange(0, k) =~= done + last.subrange(0, k - done.len()));
            if k < actions.len() {
                assert(actions[k] == last[k - done.len()]);
            }
        }
    }
}

} // verus!

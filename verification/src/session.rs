//! A recording session from end to end: the capture driver's events, taken
//! by the segment writer in the order in which they were sent.

use crate::capture::{
    capture_run, lemma_capture_follows_protocol, lemma_segment_numbering, Callback,
};
use crate::event::start_paths;
use crate::sample::decode_samples;
use crate::segment::segment_path;
use crate::writer::{
    action_in_order, arrivals, files_held, files_written, lemma_segment_paths,
    lemma_segments_round_trip, lemma_writer_follows_events, segments_recorded, writer_run,
    WriterState,
};
use vstd::prelude::*;

verus! {

/// Whatever the recording flag does during a session, and while no event is
/// lost and no file operation fails: the writer reports no fault; a file is
/// open at the end exactly if the driver is still recording; there is one
/// file for each segment begun; the file of segment `i` lies at destination
/// `i` of the session directory; and reading it back yields the samples of
/// the blocks that were sent for that segment, in order and bit for bit.
pub proof fn lemma_session_files(dir: Seq<char>, inputs: Seq<Callback>)
    ensures
        ({
            let (driver, events) = capture_run(dir, inputs);
            let (writer, actions) = writer_run(WriterState::Idle, arrivals(events));
            let files = files_written(actions);
            let segments = segments_recorded(events);
            &&& forall|j: int| 0 <= j < actions.len() ==> !((#[trigger] actions[j]) is Report)
            &&& files_held(writer) == if driver.recording {
                1int
            } else {
                0int
            }
            &&& files.len() == driver.next_index
            &&& segments.len() == driver.next_index
            &&& forall|i: int|
                0 <= i < files.len() ==> {
                    &&& (#[trigger] files[i]).path == segment_path(dir, i as nat)
                    &&& decode_samples(files[i].bytes) == segments[i].samples
                }
        }),
{
    let (driver, events) = capture_run(dir, inputs);
    let (writer, actions) = writer_run(WriterState::Idle, arrivals(events));
    let files = files_written(actions);
    let segments = segments_recorded(events);
    lemma_capture_follows_protocol(dir, inputs);
    lemma_segment_numbering(dir, inputs);
    lemma_writer_follows_events(events);
    lemma_segments_round_trip(events);
    lemma_segment_paths(events);
    assert forall|j: int| 0 <= j < actions.len() implies !((#[trigger] actions[j]) is Report) by {
        assert(actions[j] == action_in_order(events[j]));
    }
    assert forall|i: int| 0 <= i < files.len() implies {
        &&& (#[trigger] files[i]).path == segment_path(dir, i as nat)
        &&& decode_samples(files[i].bytes) == segments[i].samples
    } by {
        assert(segments[i].path == start_paths(events)[i]);
    }
}

} // verus!

use gated_recorder::event::RecordingEvent;
use gated_recorder::sample::Sample;
use gated_recorder::writer::{SegmentWriter, WriterAction, WriterFault, WriterState};

fn block(values: &[f32]) -> Vec<Sample> {
    values.iter().map(|v| Sample::from_bits(v.to_bits())).collect()
}

fn start(path: &str) -> RecordingEvent {
    RecordingEvent::Start(String::from(path))
}

fn opened(path: &str) -> SegmentWriter {
    let mut w = SegmentWriter::new();
    w.on_event(start(path));
    w
}

#[test]
fn new_writer_is_idle() {
    assert_eq!(SegmentWriter::new().state(), WriterState::Idle);
}

#[test]
fn start_creates_the_file() {
    let mut w = SegmentWriter::new();
    assert_eq!(w.on_event(start("s/000000")), vec![WriterAction::Create(String::from("s/000000"))]);
    assert_eq!(w.state(), WriterState::Open);
}

#[test]
fn data_is_appended_big_endian() {
    let mut w = opened("a");
    assert_eq!(
        w.on_event(RecordingEvent::Data(block(&[0.1, 0.2]))),
        vec![WriterAction::Append(vec![0x3D, 0xCC, 0xCC, 0xCD, 0x3E, 0x4C, 0xCC, 0xCD])]
    );
    assert_eq!(w.on_event(RecordingEvent::Data(Vec::new())), vec![WriterAction::Append(Vec::new())]);
    assert_eq!(w.state(), WriterState::Open);
}

#[test]
fn stop_closes_the_file() {
    let mut w = opened("a");
    assert_eq!(w.on_event(RecordingEvent::Stop), vec![WriterAction::Close]);
    assert_eq!(w.state(), WriterState::Idle);
}

#[test]
fn second_stop_is_reported_once_and_closes_nothing() {
    let mut w = opened("a");
    let mut actions = w.on_event(RecordingEvent::Stop);
    actions.extend(w.on_event(RecordingEvent::Stop));
    assert_eq!(
        actions,
        vec![WriterAction::Close, WriterAction::Report(WriterFault::StopWithoutSegment)]
    );
    assert_eq!(w.state(), WriterState::Idle);
}

#[test]
fn stop_on_a_fresh_writer_is_reported() {
    let mut w = SegmentWriter::new();
    assert_eq!(
        w.on_event(RecordingEvent::Stop),
        vec![WriterAction::Report(WriterFault::StopWithoutSegment)]
    );
    assert_eq!(w.state(), WriterState::Idle);
}

#[test]
fn data_without_segment_is_reported_and_not_written() {
    let mut w = SegmentWriter::new();
    let actions = w.on_event(RecordingEvent::Data(block(&[0.5, 0.6])));
    assert_eq!(actions, vec![WriterAction::Report(WriterFault::DataWithoutSegment)]);
    assert_eq!(w.state(), WriterState::Idle);
    // The writer still takes the next segment.
    assert_eq!(w.on_event(start("next")), vec![WriterAction::Create(String::from("next"))]);
    assert_eq!(
        w.on_event(RecordingEvent::Data(block(&[1.0]))),
        vec![WriterAction::Append(vec![0x3F, 0x80, 0, 0])]
    );
}

#[test]
fn start_while_open_reports_closes_and_creates() {
    let mut w = opened("first");
    assert_eq!(
        w.on_event(start("second")),
        vec![
            WriterAction::Report(WriterFault::StartWhileOpen),
            WriterAction::Close,
            WriterAction::Create(String::from("second")),
        ]
    );
    assert_eq!(w.state(), WriterState::Open);
}

#[test]
fn failed_create_abandons_the_segment() {
    let mut w = opened("unwritable");
    assert_eq!(w.on_create_failed(), vec![WriterAction::Report(WriterFault::CreateFailed)]);
    assert_eq!(w.state(), WriterState::Abandoned);
    assert_eq!(
        w.on_event(RecordingEvent::Data(block(&[0.1]))),
        vec![WriterAction::Report(WriterFault::DataWithoutSegment)]
    );
    assert_eq!(w.state(), WriterState::Abandoned);
    // The stop that ends the abandoned segment is no fault.
    assert_eq!(w.on_event(RecordingEvent::Stop), Vec::new());
    assert_eq!(w.state(), WriterState::Idle);
    // One more is.
    assert_eq!(
        w.on_event(RecordingEvent::Stop),
        vec![WriterAction::Report(WriterFault::StopWithoutSegment)]
    );
}

#[test]
fn failed_write_closes_and_abandons() {
    let mut w = opened("a");
    w.on_event(RecordingEvent::Data(block(&[0.1])));
    assert_eq!(
        w.on_write_failed(),
        vec![WriterAction::Report(WriterFault::WriteFailed), WriterAction::Close]
    );
    assert_eq!(w.state(), WriterState::Abandoned);
    assert_eq!(
        w.on_event(RecordingEvent::Data(block(&[0.2]))),
        vec![WriterAction::Report(WriterFault::DataWithoutSegment)]
    );
    assert_eq!(w.on_event(start("b")), vec![WriterAction::Create(String::from("b"))]);
    assert_eq!(w.state(), WriterState::Open);
}

#[test]
fn failures_without_open_file_change_nothing() {
    let mut w = SegmentWriter::new();
    assert_eq!(w.on_create_failed(), Vec::new());
    assert_eq!(w.on_write_failed(), Vec::new());
    assert_eq!(w.state(), WriterState::Idle);
    let mut w = opened("a");
    w.on_create_failed();
    assert_eq!(w.on_write_failed(), Vec::new());
    assert_eq!(w.on_create_failed(), Vec::new());
    assert_eq!(w.state(), WriterState::Abandoned);
}

#[test]
fn shutdown_closes_an_open_file() {
    let mut w = opened("a");
    assert_eq!(w.shutdown(), vec![WriterAction::Close]);
    assert_eq!(w.state(), WriterState::Idle);
    assert_eq!(w.shutdown(), Vec::new());
    let mut w = opened("a");
    w.on_create_failed();
    assert_eq!(w.shutdown(), Vec::new());
    assert_eq!(w.state(), WriterState::Idle);
}

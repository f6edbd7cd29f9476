use gated_recorder::playback::{PlaybackAction, PlaybackDriver, PlaybackState};
use gated_recorder::sample::{encode_block, Sample};

fn block(values: &[f32]) -> Vec<Sample> {
    values.iter().map(|v| Sample::from_bits(v.to_bits())).collect()
}

fn floats(samples: &[Sample]) -> Vec<f32> {
    samples.iter().map(|s| f32::from_bits(s.to_bits())).collect()
}

fn scratch(slots: usize) -> Vec<Sample> {
    vec![Sample::from_bits(0x7FC0_0000); slots]
}

#[test]
fn new_driver_is_streaming() {
    let d = PlaybackDriver::new(encode_block(&block(&[0.1])));
    assert_eq!(d.state(), PlaybackState::Streaming);
    assert_eq!(d.position(), 0);
}

#[test]
fn blocks_come_in_file_order() {
    let mut d = PlaybackDriver::new(encode_block(&block(&[0.1, 0.2, 0.3, 0.4, 0.5, 0.6])));
    let mut out = scratch(2);
    assert_eq!(d.render(&mut out), PlaybackAction::Play);
    assert_eq!(floats(&out), vec![0.1, 0.2]);
    assert_eq!(d.render(&mut out), PlaybackAction::Play);
    assert_eq!(floats(&out), vec![0.3, 0.4]);
    let mut wide = scratch(1);
    assert_eq!(d.render(&mut wide), PlaybackAction::Play);
    assert_eq!(floats(&wide), vec![0.5]);
    assert_eq!(d.position(), 5);
    assert_eq!(d.state(), PlaybackState::Streaming);
}

#[test]
fn last_block_is_padded_with_silence() {
    // Five samples in blocks of two: three blocks cover them.
    let mut d = PlaybackDriver::new(encode_block(&block(&[0.1, 0.2, 0.3, 0.4, 0.5])));
    let mut out = scratch(2);
    d.render(&mut out);
    d.render(&mut out);
    assert_eq!(d.state(), PlaybackState::Streaming);
    assert_eq!(d.render(&mut out), PlaybackAction::Play);
    assert_eq!(out, vec![Sample::from_bits(0.5f32.to_bits()), Sample::from_bits(0)]);
    assert_eq!(floats(&out), vec![0.5, 0.0]);
    assert_eq!(d.state(), PlaybackState::Finished);
    assert_eq!(d.position(), 5);
}

#[test]
fn finished_driver_asks_for_exit_and_leaves_the_block() {
    let mut d = PlaybackDriver::new(encode_block(&block(&[0.1])));
    let mut out = scratch(3);
    assert_eq!(d.render(&mut out), PlaybackAction::Play);
    assert_eq!(floats(&out), vec![0.1, 0.0, 0.0]);
    let mut next = block(&[9.0, 9.0, 9.0]);
    assert_eq!(d.render(&mut next), PlaybackAction::Exit);
    assert_eq!(floats(&next), vec![9.0, 9.0, 9.0]);
    assert_eq!(d.render(&mut next), PlaybackAction::Exit);
    assert_eq!(d.state(), PlaybackState::Finished);
}

#[test]
fn segment_of_whole_blocks_finishes_one_block_later() {
    let mut d = PlaybackDriver::new(encode_block(&block(&[0.1, 0.2, 0.3, 0.4])));
    let mut out = scratch(2);
    d.render(&mut out);
    assert_eq!(d.render(&mut out), PlaybackAction::Play);
    assert_eq!(floats(&out), vec![0.3, 0.4]);
    // No read has failed yet.
    assert_eq!(d.state(), PlaybackState::Streaming);
    assert_eq!(d.render(&mut out), PlaybackAction::Play);
    assert_eq!(floats(&out), vec![0.0, 0.0]);
    assert_eq!(d.state(), PlaybackState::Finished);
    assert_eq!(d.render(&mut out), PlaybackAction::Exit);
}

#[test]
fn empty_file_plays_silence_once() {
    let mut d = PlaybackDriver::new(Vec::new());
    let mut out = scratch(4);
    assert_eq!(d.render(&mut out), PlaybackAction::Play);
    assert_eq!(floats(&out), vec![0.0, 0.0, 0.0, 0.0]);
    assert_eq!(d.state(), PlaybackState::Finished);
}

#[test]
fn short_trailing_bytes_end_the_stream() {
    let mut bytes = encode_block(&block(&[0.25, 0.75]));
    bytes.extend_from_slice(&[0x3F, 0x80]);
    let mut d = PlaybackDriver::new(bytes);
    let mut out = scratch(4);
    assert_eq!(d.render(&mut out), PlaybackAction::Play);
    assert_eq!(floats(&out), vec![0.25, 0.75, 0.0, 0.0]);
    assert_eq!(d.state(), PlaybackState::Finished);
    assert_eq!(d.position(), 2);
}

#[test]
fn empty_block_reads_nothing() {
    let mut d = PlaybackDriver::new(Vec::new());
    let mut out: Vec<Sample> = Vec::new();
    assert_eq!(d.render(&mut out), PlaybackAction::Play);
    assert_eq!(d.state(), PlaybackState::Streaming);
    assert!(out.is_empty());
}

#[test]
fn end_of_stream_after_the_covering_blocks() {
    for total in 1usize..40 {
        for slots in 1usize..9 {
            if total % slots == 0 {
                continue;
            }
            let values: Vec<f32> = (0..total).map(|i| 1.0 + i as f32).collect();
            let mut d = PlaybackDriver::new(encode_block(&block(&values)));
            let blocks = (total + slots - 1) / slots;
            let mut out = scratch(slots);
            for _ in 0..blocks - 1 {
                assert_eq!(d.render(&mut out), PlaybackAction::Play);
                assert_eq!(d.state(), PlaybackState::Streaming);
            }
            assert_eq!(d.render(&mut out), PlaybackAction::Play);
            assert_eq!(d.state(), PlaybackState::Finished);
            let rest = total % slots;
            assert_eq!(floats(&out[..rest]), values[total - rest..].to_vec());
            for sample in &out[rest..] {
                assert_eq!(sample.to_bits(), 0.0f32.to_bits());
            }
        }
    }
}

//! The playback state machine: feeds a recorded segment to the output
//! device block by block, pads the block in which the segment runs out
//! with silence, and then asks for the end of the program.

use crate::sample::{decode_samples, sample_at, sample_count, Sample};
use vstd::arithmetic::div_mod::{lemma_fundamental_div_mod, lemma_fundamental_div_mod_converse};
use vstd::arithmetic::mul::lemma_mul_is_distributive_add_other_way;
use vstd::prelude::*;

verus! {

/// Where playback stands.
#[derive(Clone, Copy, Debug, PartialEq, Eq, Structural)]
pub enum PlaybackState {
    /// No read has run past the end of the segment yet.
    Streaming,
    /// A read ran past the end of the segment.
    Finished,
}

/// What the output callback is to do.
#[derive(Clone, Copy, Debug, PartialEq, Eq, Structural)]
pub enum PlaybackAction {
    /// Hand the block, which has been filled, to the device.
    Play,
    /// End the program: playback finished in an earlier callback.
    Exit,
}

/// The playback driver as a mathematical value.
pub struct PlaybackModel {
    /// The samples of the segment: one per whole group of four bytes.
    pub samples: Seq<Sample>,
    /// The number of samples played so far.
    pub cursor: nat,
    /// Whether a read ran past the end of the segment.
    pub finished: bool,
}

/// The driver before the first callback.
pub open spec fn playback_start(source: Seq<u8>) -> PlaybackModel {
    PlaybackModel { samples: decode_samples(source), cursor: 0, finished: false }
}

/// The block of `slots` samples that a streaming driver plays next: the
/// samples from the cursor on, then silence once they have run out.
pub open spec fn playback_block(state: PlaybackModel, slots: nat) -> Seq<Sample> {
    Seq::new(
        slots,
        |i: int|
            if state.cursor + i < state.samples.len() {
                state.samples[state.cursor + i]
            } else {
                Sample::silence_spec()
            },
    )
}

/// The driver after one callback that asked for `slots` samples. A
/// finished driver stays as it is. A streaming driver advances by the
/// samples it had, and finishes if it had fewer than were asked for.
pub open spec fn playback_step(state: PlaybackModel, slots: nat) -> PlaybackModel {
    if state.finished {
        state
    } else if state.cursor + slots > state.samples.len() {
        PlaybackModel { cursor: state.samples.len(), finished: true, ..state }
    } else {
        PlaybackModel { cursor: state.cursor + slots, ..state }
    }
}

/// The driver after `blocks` callbacks that each asked for `slots` samples.
pub open spec fn playback_run(state: PlaybackModel, slots: nat, blocks: nat) -> PlaybackModel
    decreases blocks,
{
    if blocks == 0 {
        state
    } else {
        playback_step(playback_run(state, slots, (blocks - 1) as nat), slots)
    }
}

/// Plays one segment, held as its file image.
pub struct PlaybackDriver {
    source: Vec<u8>,
    cursor: usize,
    finished: bool,
}

impl View for PlaybackDriver {
    type V = PlaybackModel;

    closed spec fn view(&self) -> PlaybackModel {
        PlaybackModel {
            samples: decode_samples(self.source@),
            cursor: self.cursor as nat,
            finished: self.finished,
        }
    }
}

impl PlaybackDriver {
    #[verifier::type_invariant]
    spec fn cursor_within_segment(self) -> bool {
        self.cursor <= decode_samples(self.source@).len()
    }

    /// A driver at the beginning of the segment whose file image is
    /// `source`. Bytes after the last whole sample are never played.
    pub fn new(source: Vec<u8>) -> (driver: PlaybackDriver)
        ensures
            driver@ == playback_start(source@),
    {
        PlaybackDriver { source, cursor: 0, finished: false }
    }

    /// Where playback stands.
    pub fn state(&self) -> (state: PlaybackState)
        ensures
            state == if self@.finished {
                PlaybackState::Finished
            } else {
                PlaybackState::Streaming
            },
    {
        if self.finished {
            PlaybackState::Finished
        } else {
            PlaybackState::Streaming
        }
    }

    /// The number of samples played so far.
    pub fn position(&self) -> (cursor: usize)
        ensures
            cursor == self@.cursor,
            cursor <= self@.samples.len(),
    {
        proof {
            use_type_invariant(self);
        }
        self.cursor
    }

    /// Handles one output callback whose block is `out`.
    ///
    /// A finished driver leaves the block alone and asks for the end of the
    /// program. A streaming driver overwrites every slot of the block, with
    /// the next samples of the segment while they last and with silence
    /// after them, and finishes if the samples did not last.
    pub fn render(&mut self, out: &mut Vec<Sample>) -> (action: PlaybackAction)
        ensures
            final(self)@ == playback_step(old(self)@, old(out)@.len()),
            old(self)@.finished ==> action == PlaybackAction::Exit && final(out)@ == old(out)@,
            !old(self)@.finished ==> action == PlaybackAction::Play && final(out)@
                == playback_block(old(self)@, old(out)@.len()),
    {
        proof {
            use_type_invariant(&*self);
        }
        if self.finished {
            return PlaybackAction::Exit;
        }
        let slots = out.len();
        let total = sample_count(self.source.as_slice());
        let mut i: usize = 0;
        while i < slots
            invariant
                i <= slots,
                total == decode_samples(self.source@).len(),
                out@.len() == slots,
                self.source@ == old(self).source@,
                self.cursor <= decode_samples(self.source@).len(),
                old(self).cursor + i <= decode_samples(self.source@).len() ==> self.cursor == old(
                    self,
                ).cursor + i && !self.finished,
                old(self).cursor + i > decode_samples(self.source@).len() ==> self.cursor
                    == decode_samples(self.source@).len() && self.finished,
                forall|k: int|
                    0 <= k < i ==> out@[k] == playback_block(old(self)@, slots as nat)[k],
            decreases slots - i,
        {
            if self.cursor < total {
                out.set(i, sample_at(self.source.as_slice(), self.cursor));
                self.cursor = self.cursor + 1;
            } else {
                // Past the end of the segment: the slot is silent.
                out.set(i, Sample::silence());
                self.finished = true;
            }
            i += 1;
        }
        proof {
            assert(out@ =~= playback_block(old(self)@, slots as nat));
        }
        PlaybackAction::Play
    }
}

/// After `blocks` callbacks of `slots` samples each, playback has finished
/// exactly if more samples were asked for than the segment holds, and has
/// played what was asked for or, if that is less, the whole segment.
pub proof fn lemma_playback_progress(source: Seq<u8>, slots: nat, blocks: nat)
    ensures
        ({
            let state = playback_run(playback_start(source), slots, blocks);
            let total = decode_samples(source).len();
            &&& state.samples == decode_samples(source)
            &&& state.finished == (blocks * slots > total)
            &&& state.cursor == if blocks * slots > total {
                total
            } else {
                blocks * slots
            }
        }),
    decreases blocks,
{
    if blocks > 0 {
        lemma_playback_progress(source, slots, (blocks - 1) as nat);
        lemma_mul_is_distributive_add_other_way(slots as int, blocks - 1, 1);
        assert(blocks * slots == (blocks - 1) * slots + slots);
    }
}

/// The number of blocks of `slots` samples that cover `total` samples.
pub open spec fn blocks_to_cover(total: nat, slots: nat) -> nat
    recommends
        slots > 0,
{
    ((total + slots - 1) / slots as int) as nat
}

/// End of stream. For a segment whose length is no multiple of the block
/// size, playback is still streaming before the last of the blocks that
/// cover the segment and has finished after it; that block holds the rest
/// of the segment and then silence.
pub proof fn lemma_playback_end_of_stream(source: Seq<u8>, slots: nat)
    requires
        slots > 0,
        decode_samples(source).len() % slots != 0,
    ensures
        ({
            let samples = decode_samples(source);
            let rest = samples.len() % slots;
            let blocks = blocks_to_cover(samples.len(), slots);
            let before = playback_run(playback_start(source), slots, (blocks - 1) as nat);
            let after = playback_run(playback_start(source), slots, blocks);
            let last = playback_block(before, slots);
            &&& blocks >= 1
            &&& !before.finished
            &&& after.finished
            &&& after.cursor == samples.len()
            &&& last.len() == slots
            &&& forall|i: int| 0 <= i < rest ==> last[i] == samples[samples.len() - rest + i]
            &&& forall|i: int| rest <= i < slots ==> last[i] == Sample::silence_spec()
        }),
{
    let total = decode_samples(source).len();
    let rest = total % slots;
    let whole = total / slots;
    lemma_fundamental_div_mod(total as int, slots as int);
    assert(total == slots * whole + rest);
    lemma_mul_is_distributive_add_other_way(slots as int, whole as int, 1);
    assert((whole + 1) * slots == whole * slots + slots);
    assert(slots * whole == whole * slots) by (nonlinear_arith);
    lemma_fundamental_div_mod_converse(
        total + slots - 1,
        slots as int,
        (whole + 1) as int,
        rest - 1,
    );
    assert(blocks_to_cover(total, slots) == whole + 1);
    lemma_playback_progress(source, slots, whole);
    lemma_playback_progress(source, slots, whole + 1);
}

} // verus!

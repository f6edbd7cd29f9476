//! Real-time audio segment recorder core: sample encoding, segment naming,
//! the capture and playback state machines, the bounded event channel and
//! the segment writer, each with a machine-checked contract.

pub mod sample;
pub mod segment;
pub mod event;
pub mod gate;
pub mod capture;
pub mod channel;
pub mod writer;
pub mod playback;
pub mod session;

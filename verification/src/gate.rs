//! The recording gate: the one boolean that the input side writes and the
//! capture side reads, each from its own thread.

use std::sync::atomic::AtomicBool;
use std::sync::atomic::Ordering;
use std::sync::Arc;
use vstd::prelude::*;

verus! {

/// A shared "recording requested" flag. Every handle made by `clone` reads
/// and writes the same flag. Reads and writes never block; a read sees the
/// latest write or an earlier one, and nothing else is promised of it.
#[derive(Clone)]
pub struct RecordingGate {
    flag: Arc<AtomicBool>,
}

impl RecordingGate {
    /// A gate of its own, lowered.
    pub fn new() -> (gate: RecordingGate) {
        RecordingGate { flag: Arc::new(AtomicBool::new(false)) }
    }

    /// Raises or lowers the flag.
    pub fn set(&self, requested: bool) {
        self.flag.store(requested, Ordering::Relaxed);
    }

    /// The flag as it is seen now.
    pub fn get(&self) -> (requested: bool) {
        self.flag.load(Ordering::Relaxed)
    }
}

} // verus!

//! The contract the chunk store requires from a persistence sink: a
//! per-chunk save that may fail individually. Where snapshots go (disk,
//! database, network) is the collaborator's concern, not the core's.

use vstd::prelude::*;
use crate::chunk::Chunk;

verus! {

/// An external storage sink for chunk snapshots. A save is keyed by the
/// chunk coordinate and reports success; nothing is promised about
/// which calls succeed, so storage may fail any individual write and
/// the store retries on the next flush cycle. Re-saving identical
/// content must be safe for the implementor (saves are idempotent).
pub trait PersistenceSink: Sized {
    /// Hands one chunk snapshot to storage; true reports success.
    fn save(&mut self, x: i32, z: i32, chunk: &Chunk) -> bool;
}

/// A sink that accepts every snapshot and records the coordinates it
/// was handed, in call order.
pub struct RecordingSink {
    pub saved: Vec<(i32, i32)>,
}

impl RecordingSink {
    /// An empty recording sink.
    pub fn new() -> (r: RecordingSink)
        ensures
            r.saved@.len() == 0,
    {
        RecordingSink { saved: Vec::new() }
    }
}

impl PersistenceSink for RecordingSink {
    fn save(&mut self, x: i32, z: i32, chunk: &Chunk) -> bool {
        self.saved.push((x, z));
        true
    }
}

/// A sink whose storage is unavailable: every write fails.
pub struct FailingSink {}

impl PersistenceSink for FailingSink {
    fn save(&mut self, x: i32, z: i32, chunk: &Chunk) -> bool {
        false
    }
}

} // verus!

//! The timing side of a session.
//!
//! The receiver performs `chunk_count` timed iterations: read exactly one
//! chunk's bytes, then append one record carrying the next sequential index
//! and the measured duration. The blocking reads and the clock live outside
//! the library; this module owns the record sequence and its invariants:
//! indices form the gapless ascending run `1..=n`, and every record's rate
//! is derived from its own duration.

use vstd::prelude::*;
use crate::config::SessionConfig;
use crate::record::{ChunkRecord, rate_bps_of};

verus! {

/// One receiving session accumulating timed chunk records in arrival order.
pub struct ReceiverSession {
    pub config: SessionConfig,
    pub records: Vec<ChunkRecord>,
}

impl ReceiverSession {
    pub open spec fn wf(self) -> bool {
        &&& self.config.wf()
        &&& self.records@.len() <= self.config.chunk_count
        &&& forall|i: int| 0 <= i < self.records@.len()
                ==> (#[trigger] self.records@[i]).wf(self.config.chunk_size_bytes as int)
        &&& forall|i: int| 0 <= i < self.records@.len()
                ==> (#[trigger] self.records@[i]).index == i + 1
    }

    pub fn new(config: SessionConfig) -> (r: ReceiverSession)
        requires
            config.wf(),
        ensures
            r.config == config,
            r.records@.len() == 0,
            r.wf(),
    {
        ReceiverSession { config, records: Vec::new() }
    }

    /// The session is complete when every scheduled chunk has been timed.
    pub fn is_complete(&self) -> (r: bool)
        requires
            self.wf(),
        ensures
            r == (self.records@.len() == self.config.chunk_count),
    {
        self.records.len() == self.config.chunk_count as usize
    }

    /// Appends the record for the next fully received chunk: it takes the
    /// next sequential index, the measured duration, and the rate derived
    /// from that duration.
    pub fn record_chunk(&mut self, duration_nanos: u64)
        requires
            old(self).wf(),
            old(self).records@.len() < old(self).config.chunk_count,
            duration_nanos >= 1,
        ensures
            final(self).config == old(self).config,
            final(self).wf(),
            final(self).records@.len() == old(self).records@.len() + 1,
            forall|i: int| 0 <= i < old(self).records@.len()
                ==> final(self).records@[i] == old(self).records@[i],
            final(self).records@.last().index == old(self).records@.len() + 1,
            final(self).records@.last().duration_nanos == duration_nanos,
            final(self).records@.last().effective_rate_bps
                == rate_bps_of(old(self).config.chunk_size_bytes as int, duration_nanos as int),
    {
        let index: u64 = self.records.len() as u64 + 1;
        let rec = ChunkRecord::new(self.config.chunk_size_bytes, index, duration_nanos);
        self.records.push(rec);
    }
}

/// The indices of a well-formed session's records form the gapless
/// ascending sequence `1..=n`: record `i` (0-based) carries index `i + 1`,
/// so indices are unique and strictly increasing with no gaps or repeats.
pub proof fn lemma_indices_sequential(s: ReceiverSession)
    requires
        s.wf(),
    ensures
        forall|i: int| 0 <= i < s.records@.len() ==> (#[trigger] s.records@[i]).index == i + 1,
        forall|i: int, j: int| 0 <= i < j < s.records@.len()
            ==> s.records@[i].index < s.records@[j].index,
{
}

} // verus!

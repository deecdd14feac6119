//! Per-chunk observations.

use vstd::prelude::*;

verus! {

/// Effective data rate, in bits per second, of one chunk of
/// `chunk_size_bytes` bytes received in `duration_nanos` nanoseconds:
/// `chunk_size_bytes * 8 / (duration_nanos / 10^9)`, rounded down.
pub open spec fn rate_bps_of(chunk_size_bytes: int, duration_nanos: int) -> int
    recommends
        duration_nanos > 0,
{
    (chunk_size_bytes * 8 * 1_000_000_000) / duration_nanos
}

/// One timed chunk: produced exactly once, immediately after the chunk is
/// fully received, and immutable thereafter.
#[derive(Clone, Copy, PartialEq, Eq, Structural, Debug)]
pub struct ChunkRecord {
    /// 1-based position of the chunk within its session.
    pub index: u64,
    /// Wall-clock time to fully receive the chunk's bytes.
    pub duration_nanos: u64,
    /// Effective data rate of this chunk, in bits per second.
    pub effective_rate_bps: u128,
}

impl ChunkRecord {
    /// The record carries a positive index, a positive duration, and the
    /// rate derived from its own duration and the session's chunk size.
    pub open spec fn wf(self, chunk_size_bytes: int) -> bool {
        &&& self.index >= 1
        &&& self.duration_nanos >= 1
        &&& self.effective_rate_bps == rate_bps_of(chunk_size_bytes, self.duration_nanos as int)
    }

    pub fn new(chunk_size_bytes: u64, index: u64, duration_nanos: u64) -> (r: ChunkRecord)
        requires
            1 <= chunk_size_bytes <= crate::config::MAX_CHUNK_SIZE_BYTES,
            index >= 1,
            duration_nanos >= 1,
        ensures
            r.index == index,
            r.duration_nanos == duration_nanos,
            r.wf(chunk_size_bytes as int),
    {
        let bit_nanos: u128 = (chunk_size_bytes as u128) * 8 * 1_000_000_000;
        let rate: u128 = bit_nanos / (duration_nanos as u128);
        ChunkRecord { index, duration_nanos, effective_rate_bps: rate }
    }
}

} // verus!

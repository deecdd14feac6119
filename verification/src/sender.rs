//! The emission side of a session.
//!
//! The sender writes `chunk_count` chunks of exactly `chunk_size_bytes`
//! zeroed bytes each, in order, with no framing; the wire format is a flat
//! concatenation. The blocking writes themselves live outside the library;
//! this module tracks how far the emission has progressed and builds the
//! chunk payloads.

use vstd::prelude::*;
use crate::config::SessionConfig;

verus! {

/// Progress of one sender through its fixed emission schedule.
#[derive(Clone, Copy, PartialEq, Eq, Structural, Debug)]
pub struct SenderSession {
    pub config: SessionConfig,
    /// How many chunks have been fully accepted by the transport.
    pub chunks_sent: u64,
}

impl SenderSession {
    pub open spec fn wf(self) -> bool {
        &&& self.config.wf()
        &&& self.chunks_sent <= self.config.chunk_count
    }

    pub fn new(config: SessionConfig) -> (r: SenderSession)
        requires
            config.wf(),
        ensures
            r.config == config,
            r.chunks_sent == 0,
            r.wf(),
    {
        SenderSession { config, chunks_sent: 0 }
    }

    /// The session ends exactly when every scheduled chunk has been sent.
    pub fn is_complete(&self) -> (r: bool)
        ensures
            r == (self.chunks_sent == self.config.chunk_count),
    {
        self.chunks_sent == self.config.chunk_count
    }

    /// Records that one more chunk was fully accepted by the transport.
    pub fn mark_chunk_sent(&mut self)
        requires
            old(self).wf(),
            old(self).chunks_sent < old(self).config.chunk_count,
        ensures
            final(self).config == old(self).config,
            final(self).chunks_sent == old(self).chunks_sent + 1,
            final(self).wf(),
    {
        self.chunks_sent = self.chunks_sent + 1;
    }
}

/// Builds one chunk payload: `size` bytes, all zero. The content of the
/// bytes is irrelevant to the protocol; only the length matters.
pub fn make_chunk(size: usize) -> (r: Vec<u8>)
    ensures
        r@.len() == size,
        forall|i: int| 0 <= i < r@.len() ==> r@[i] == 0,
{
    let mut chunk: Vec<u8> = Vec::new();
    while chunk.len() < size
        invariant
            chunk@.len() <= size,
            forall|i: int| 0 <= i < chunk@.len() ==> chunk@[i] == 0,
        decreases size - chunk@.len(),
    {
        chunk.push(0);
    }
    chunk
}

} // verus!

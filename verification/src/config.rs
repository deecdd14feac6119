//! Session parameters.
//!
//! One session measures one fixed-shape transfer: `chunk_count` chunks of
//! `chunk_size_bytes` bytes each. The round-trip time and the TCP window are
//! assumed constants, used only for the derived figures, never measured.
//! The bounds below keep every derived product inside `u128`.

use vstd::prelude::*;

verus! {

/// Largest accepted chunk size, in bytes.
pub const MAX_CHUNK_SIZE_BYTES: u64 = 0x1_0000_0000;

/// Largest accepted number of chunks in one session.
pub const MAX_CHUNK_COUNT: u64 = 0x10_0000;

/// Largest accepted assumed round-trip time, in nanoseconds (about 18 minutes).
pub const MAX_RTT_NANOS: u64 = 0x100_0000_0000;

/// Largest accepted assumed TCP window, in bytes.
pub const MAX_TCP_WINDOW_BYTES: u64 = 0x1_0000_0000;

/// Largest accepted smoothing window length.
pub const MAX_SMOOTHING_WINDOW: usize = 1024;

/// The fixed parameters of one measurement session.
#[derive(Clone, Copy, PartialEq, Eq, Structural, Debug)]
pub struct SessionConfig {
    pub chunk_size_bytes: u64,
    pub chunk_count: u64,
    pub rtt_nanos: u64,
    pub tcp_window_bytes: u64,
    pub smoothing_window: usize,
}

impl SessionConfig {
    /// All parameters are positive and within the bounds that keep the
    /// summary arithmetic free of overflow.
    pub open spec fn wf(self) -> bool {
        &&& 1 <= self.chunk_size_bytes <= MAX_CHUNK_SIZE_BYTES
        &&& 1 <= self.chunk_count <= MAX_CHUNK_COUNT
        &&& 1 <= self.rtt_nanos <= MAX_RTT_NANOS
        &&& 1 <= self.tcp_window_bytes <= MAX_TCP_WINDOW_BYTES
        &&& 1 <= self.smoothing_window <= MAX_SMOOTHING_WINDOW
    }

    /// Builds a configuration, rejecting exactly the out-of-range parameters.
    pub fn new(
        chunk_size_bytes: u64,
        chunk_count: u64,
        rtt_nanos: u64,
        tcp_window_bytes: u64,
        smoothing_window: usize,
    ) -> (r: Option<SessionConfig>)
        ensures
            r is Some <==> (SessionConfig {
                chunk_size_bytes,
                chunk_count,
                rtt_nanos,
                tcp_window_bytes,
                smoothing_window,
            }).wf(),
            r is Some ==> r->Some_0 == (SessionConfig {
                chunk_size_bytes,
                chunk_count,
                rtt_nanos,
                tcp_window_bytes,
                smoothing_window,
            }),
    {
        if 1 <= chunk_size_bytes && chunk_size_bytes <= MAX_CHUNK_SIZE_BYTES
            && 1 <= chunk_count && chunk_count <= MAX_CHUNK_COUNT
            && 1 <= rtt_nanos && rtt_nanos <= MAX_RTT_NANOS
            && 1 <= tcp_window_bytes && tcp_window_bytes <= MAX_TCP_WINDOW_BYTES
            && 1 <= smoothing_window && smoothing_window <= MAX_SMOOTHING_WINDOW
        {
            Some(SessionConfig {
                chunk_size_bytes,
                chunk_count,
                rtt_nanos,
                tcp_window_bytes,
                smoothing_window,
            })
        } else {
            None
        }
    }

    /// The reference session: one hundred chunks of one megabyte, an assumed
    /// round-trip time of 0.2 s, an assumed 64 kB TCP window, and a smoothing
    /// window of five samples.
    pub fn reference() -> (r: SessionConfig)
        ensures
            r.chunk_size_bytes == 1_000_000,
            r.chunk_count == 100,
            r.rtt_nanos == 200_000_000,
            r.tcp_window_bytes == 64_000,
            r.smoothing_window == 5,
            r.wf(),
    {
        SessionConfig {
            chunk_size_bytes: 1_000_000,
            chunk_count: 100,
            rtt_nanos: 200_000_000,
            tcp_window_bytes: 64_000,
            smoothing_window: 5,
        }
    }
}

} // verus!

//! Per-direction bookkeeping of how much body the host has buffered and
//! whether the stream has ended. The host keeps the bytes themselves.

use vstd::prelude::*;
use crate::frame::HEADER_LEN;

verus! {

/// `a + b`, held at `usize::MAX` where it would overflow.
pub open spec fn saturating_sum(a: usize, b: usize) -> usize {
    if a + b > usize::MAX {
        usize::MAX
    } else {
        (a + b) as usize
    }
}

#[derive(Clone, Copy, Debug, PartialEq, Eq, Structural)]
pub struct BodyAccumulator {
    /// Bytes the host has buffered for this direction so far.
    pub received_bytes: usize,
    /// Set on the callback that reports the final chunk; never reset.
    pub end_of_stream_seen: bool,
}

impl BodyAccumulator {
    pub open spec fn initial() -> BodyAccumulator {
        BodyAccumulator { received_bytes: 0, end_of_stream_seen: false }
    }

    /// The accumulator after a chunk of `chunk_len` bytes is reported.
    pub open spec fn after_chunk(self, chunk_len: usize, end_of_stream: bool) -> BodyAccumulator {
        BodyAccumulator {
            received_bytes: saturating_sum(self.received_bytes, chunk_len),
            end_of_stream_seen: self.end_of_stream_seen || end_of_stream,
        }
    }

    /// The stream has ended before a whole frame header arrived.
    pub open spec fn too_short(self) -> bool {
        self.end_of_stream_seen && self.received_bytes < HEADER_LEN
    }

    pub fn new() -> (r: BodyAccumulator)
        ensures
            r == BodyAccumulator::initial(),
    {
        BodyAccumulator { received_bytes: 0, end_of_stream_seen: false }
    }

    /// Records that `chunk_len` more bytes are buffered by the host.
    pub fn on_chunk(&mut self, chunk_len: usize, end_of_stream: bool)
        ensures
            *final(self) == old(self).after_chunk(chunk_len, end_of_stream),
    {
        if self.received_bytes > usize::MAX - chunk_len {
            self.received_bytes = usize::MAX;
        } else {
            self.received_bytes = self.received_bytes + chunk_len;
        }
        self.end_of_stream_seen = self.end_of_stream_seen || end_of_stream;
    }

    /// Whether the whole body should now be fetched from the host: only once
    /// the stream has ended, so that every frame boundary is visible.
    pub fn should_request_full_body(&self) -> (r: bool)
        ensures
            r == self.end_of_stream_seen,
    {
        self.end_of_stream_seen
    }

    /// Whether the stream ended with fewer bytes than a frame header.
    pub fn is_too_short(&self) -> (r: bool)
        ensures
            r == self.too_short(),
    {
        self.end_of_stream_seen && self.received_bytes < HEADER_LEN
    }
}

} // verus!

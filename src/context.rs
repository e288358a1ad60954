//! The flow-control policy of one body direction and the per-stream filter
//! context that drives both directions through the host's callbacks.

use vstd::prelude::*;
use crate::accumulator::{saturating_sum, BodyAccumulator};
use crate::frame::{first_frame, frame_size, starts_with_frame};
use crate::message::text_decoded;
use crate::transform::{any_rewritten, failed_frames, inspect_body, reframe_body, transformed, Transform};

verus! {

/// What a callback tells the host to do with the data seen so far.
#[derive(Clone, Copy, Debug, PartialEq, Eq, Structural)]
pub enum Action {
    Continue,
    Pause,
}

/// Where a direction's body stands: `Released` is final.
#[derive(Clone, Copy, Debug, PartialEq, Eq, Structural)]
pub enum FlowState {
    Buffering,
    Released,
}

/// The decision taken on a body callback.
#[derive(Clone, Copy, Debug, PartialEq, Eq, Structural)]
pub enum BodyStep {
    /// Withhold the body downstream and wait for more.
    Pause,
    /// The stream has ended: fetch up to `max_len` buffered bytes from offset 0
    /// and hand them to the release call.
    Fetch { max_len: usize },
    /// Let the body through unmodified.
    Continue,
}

/// The accumulator and flow state of one direction.
#[derive(Clone, Copy, Debug, PartialEq, Eq, Structural)]
pub struct DirectionState {
    pub accumulator: BodyAccumulator,
    pub state: FlowState,
}

/// What a release hands back: the action, and the bytes that replace the
/// body where it is re-framed.
pub struct Release {
    pub action: Action,
    pub replacement: Option<Vec<u8>>,
    /// Frames of the released body whose message could not be decoded.
    pub failed_frames: usize,
}

/// The next state of a direction, and its decision, on a body callback.
pub open spec fn body_step(d: DirectionState, body_size: usize, end_of_stream: bool) -> (DirectionState, BodyStep) {
    if d.state is Released {
        (d, BodyStep::Continue)
    } else {
        let acc = d.accumulator.after_chunk(body_size, end_of_stream);
        if !acc.end_of_stream_seen {
            (DirectionState { accumulator: acc, state: FlowState::Buffering }, BodyStep::Pause)
        } else if acc.too_short() {
            (DirectionState { accumulator: acc, state: FlowState::Released }, BodyStep::Continue)
        } else {
            (DirectionState { accumulator: acc, state: FlowState::Buffering },
                BodyStep::Fetch { max_len: acc.received_bytes })
        }
    }
}

/// The bytes that replace a fetched body on release: the transformed body,
/// where the direction is still buffering, the host gave the body, and some
/// frame of it is rewritten. Otherwise the body is left as the host holds it.
pub open spec fn released_body(d: DirectionState, t: Transform, body: Option<Seq<u8>>) -> Option<Seq<u8>> {
    match body {
        Some(b) => if d.state is Buffering && t.rewrites() && any_rewritten(t, b) {
            Some(transformed(t, b))
        } else {
            None
        },
        None => None,
    }
}

/// The bytes of a fetched body, if the host gave any.
pub open spec fn fetched_view(body: Option<&[u8]>) -> Option<Seq<u8>> {
    match body {
        Some(b) => Some(b@),
        None => None,
    }
}

/// The number of undecodable frames reported on release: those of the fetched
/// body, where the direction is still buffering.
pub open spec fn released_failures(d: DirectionState, t: Transform, body: Option<Seq<u8>>) -> nat {
    match body {
        Some(b) => if d.state is Buffering {
            failed_frames(t, b)
        } else {
            0
        },
        None => 0,
    }
}

impl DirectionState {
    pub open spec fn initial() -> DirectionState {
        DirectionState { accumulator: BodyAccumulator::initial(), state: FlowState::Buffering }
    }

    pub fn new() -> (r: DirectionState)
        ensures
            r == DirectionState::initial(),
    {
        DirectionState { accumulator: BodyAccumulator::new(), state: FlowState::Buffering }
    }

    /// A body callback: pause until the stream ends, then ask for the whole
    /// body, or let a body shorter than a frame header through as it is.
    pub fn on_body(&mut self, body_size: usize, end_of_stream: bool) -> (r: BodyStep)
        ensures
            (*final(self), r) == body_step(*old(self), body_size, end_of_stream),
    {
        if self.state == FlowState::Released {
            return BodyStep::Continue;
        }
        self.accumulator.on_chunk(body_size, end_of_stream);
        if !self.accumulator.should_request_full_body() {
            BodyStep::Pause
        } else if self.accumulator.is_too_short() {
            self.state = FlowState::Released;
            BodyStep::Continue
        } else {
            BodyStep::Fetch { max_len: self.accumulator.received_bytes }
        }
    }

    /// Releases the body fetched from the host (`None` where the host had no
    /// data), re-framed by `t`. Always continues: no failure stops the stream.
    pub fn release(&mut self, t: &Transform, body: Option<&[u8]>) -> (r: Release)
        ensures
            final(self).accumulator == old(self).accumulator,
            final(self).state == FlowState::Released,
            r.action == Action::Continue,
            r.failed_frames == released_failures(*old(self), *t, fetched_view(body)),
            match r.replacement {
                Some(v) => released_body(*old(self), *t, fetched_view(body)) == Some(v@),
                None => released_body(*old(self), *t, fetched_view(body)) is None,
            },
    {
        let replacement = match body {
            Some(b) => if self.state == FlowState::Buffering && t.is_rewriting() {
                let (out, rewritten) = reframe_body(t, b);
                if rewritten {
                    Some(out)
                } else {
                    None
                }
            } else {
                None
            },
            None => None,
        };
        let failed = match body {
            Some(b) => if self.state == FlowState::Buffering {
                inspect_body(t, b)
            } else {
                0
            },
            None => 0,
        };
        self.state = FlowState::Released;
        Release { action: Action::Continue, replacement, failed_frames: failed }
    }
}

/// The decision taken on the request-headers callback.
#[derive(Clone, Copy, Debug, PartialEq, Eq, Structural)]
pub struct HeadersStep {
    pub action: Action,
    /// Clear the response `content-length` header: a rewrite may change the
    /// body's size.
    pub clear_content_length: bool,
}

/// The filter state of one HTTP stream: a transform and a flow state for each
/// direction.
pub struct FilterContext {
    /// The host's identifier of the stream.
    pub context_id: u32,
    pub request_transform: Transform,
    pub response_transform: Transform,
    pub request: DirectionState,
    pub response: DirectionState,
    pub request_headers_seen: bool,
}

impl FilterContext {
    pub fn new(context_id: u32, request_transform: Transform, response_transform: Transform) -> (r: FilterContext)
        ensures
            r.context_id == context_id,
            r.request_transform == request_transform,
            r.response_transform == response_transform,
            r.request == DirectionState::initial(),
            r.response == DirectionState::initial(),
            !r.request_headers_seen,
    {
        FilterContext {
            context_id,
            request_transform,
            response_transform,
            request: DirectionState::new(),
            response: DirectionState::new(),
            request_headers_seen: false,
        }
    }

    /// A stream whose request messages have every `pattern` in their text
    /// replaced by `replacement`; responses pass through.
    pub fn rewriting(context_id: u32, pattern: String, replacement: String) -> (r: FilterContext)
        ensures
            r.context_id == context_id,
            r.request_transform == (Transform::Rewriting { pattern, replacement }),
            r.response_transform == Transform::Passthrough,
            r.request == DirectionState::initial(),
            r.response == DirectionState::initial(),
            !r.request_headers_seen,
    {
        FilterContext::new(context_id, Transform::Rewriting { pattern, replacement }, Transform::Passthrough)
    }

    /// A stream whose messages are decoded in both directions but never changed.
    pub fn inspecting(context_id: u32) -> (r: FilterContext)
        ensures
            r.context_id == context_id,
            r.request_transform == Transform::Inspecting,
            r.response_transform == Transform::Inspecting,
            r.request == DirectionState::initial(),
            r.response == DirectionState::initial(),
            !r.request_headers_seen,
    {
        FilterContext::new(context_id, Transform::Inspecting, Transform::Inspecting)
    }

    /// A stream whose bodies are never decoded.
    pub fn passthrough(context_id: u32) -> (r: FilterContext)
        ensures
            r.context_id == context_id,
            r.request_transform == Transform::Passthrough,
            r.response_transform == Transform::Passthrough,
            r.request == DirectionState::initial(),
            r.response == DirectionState::initial(),
            !r.request_headers_seen,
    {
        FilterContext::new(context_id, Transform::Passthrough, Transform::Passthrough)
    }

    /// The request-headers callback: continue, and on the first one clear the
    /// response `content-length` where the request may be rewritten.
    pub fn on_request_headers(&mut self, num_headers: usize, end_of_stream: bool) -> (r: HeadersStep)
        ensures
            r.action == Action::Continue,
            r.clear_content_length == (!old(self).request_headers_seen && old(self).request_transform.rewrites()),
            final(self).request_headers_seen,
            final(self).context_id == old(self).context_id,
            final(self).request_transform == old(self).request_transform,
            final(self).response_transform == old(self).response_transform,
            final(self).request == old(self).request,
            final(self).response == old(self).response,
    {
        let first = !self.request_headers_seen;
        self.request_headers_seen = true;
        HeadersStep { action: Action::Continue, clear_content_length: first && self.request_transform.is_rewriting() }
    }

    /// The response-headers callback: nothing to change.
    pub fn on_response_headers(&self, num_headers: usize, end_of_stream: bool) -> (r: Action)
        ensures
            r == Action::Continue,
    {
        Action::Continue
    }

    /// A request-body callback; see `DirectionState::on_body`.
    pub fn on_request_body(&mut self, body_size: usize, end_of_stream: bool) -> (r: BodyStep)
        ensures
            (final(self).request, r) == body_step(old(self).request, body_size, end_of_stream),
            final(self).context_id == old(self).context_id,
            final(self).request_transform == old(self).request_transform,
            final(self).response_transform == old(self).response_transform,
            final(self).response == old(self).response,
            final(self).request_headers_seen == old(self).request_headers_seen,
    {
        self.request.on_body(body_size, end_of_stream)
    }

    /// Releases the fetched request body; see `DirectionState::release`.
    pub fn release_request_body(&mut self, body: Option<&[u8]>) -> (r: Release)
        ensures
            final(self).request.accumulator == old(self).request.accumulator,
            final(self).request.state == FlowState::Released,
            r.action == Action::Continue,
            r.failed_frames == released_failures(old(self).request, old(self).request_transform, fetched_view(body)),
            match r.replacement {
                Some(v) => released_body(old(self).request, old(self).request_transform, fetched_view(body)) == Some(v@),
                None => released_body(old(self).request, old(self).request_transform, fetched_view(body)) is None,
            },
            final(self).context_id == old(self).context_id,
            final(self).request_transform == old(self).request_transform,
            final(self).response_transform == old(self).response_transform,
            final(self).response == old(self).response,
            final(self).request_headers_seen == old(self).request_headers_seen,
    {
        self.request.release(&self.request_transform, body)
    }

    /// A response-body callback; see `DirectionState::on_body`.
    pub fn on_response_body(&mut self, body_size: usize, end_of_stream: bool) -> (r: BodyStep)
        ensures
            (final(self).response, r) == body_step(old(self).response, body_size, end_of_stream),
            final(self).context_id == old(self).context_id,
            final(self).request_transform == old(self).request_transform,
            final(self).response_transform == old(self).response_transform,
            final(self).request == old(self).request,
            final(self).request_headers_seen == old(self).request_headers_seen,
    {
        self.response.on_body(body_size, end_of_stream)
    }

    /// Releases the fetched response body; see `DirectionState::release`.
    pub fn release_response_body(&mut self, body: Option<&[u8]>) -> (r: Release)
        ensures
            final(self).response.accumulator == old(self).response.accumulator,
            final(self).response.state == FlowState::Released,
            r.action == Action::Continue,
            r.failed_frames == released_failures(old(self).response, old(self).response_transform, fetched_view(body)),
            match r.replacement {
                Some(v) => released_body(old(self).response, old(self).response_transform, fetched_view(body)) == Some(v@),
                None => released_body(old(self).response, old(self).response_transform, fetched_view(body)) is None,
            },
            final(self).context_id == old(self).context_id,
            final(self).request_transform == old(self).request_transform,
            final(self).response_transform == old(self).response_transform,
            final(self).request == old(self).request,
            final(self).request_headers_seen == old(self).request_headers_seen,
    {
        self.response.release(&self.response_transform, body)
    }
}

/// Fail-open on release: a fetched body in which no frame is rewritten is never
/// replaced. That covers a body of one frame whose payload does not decode, and
/// a body whose first declared length the buffer cannot satisfy.
pub proof fn lemma_unrewritten_body_kept(d: DirectionState, t: Transform, s: Seq<u8>)
    requires
        !any_rewritten(t, s)
            || (starts_with_frame(s) && frame_size(s) == s.len() && text_decoded(first_frame(s).1) is None)
            || !starts_with_frame(s),
    ensures
        released_body(d, t, Some(s)) is None,
{
    if starts_with_frame(s) && frame_size(s) == s.len() && text_decoded(first_frame(s).1) is None {
        let e = s.skip(frame_size(s) as int);
        assert(e =~= Seq::<u8>::empty());
        assert(!starts_with_frame(e));
        assert(!any_rewritten(t, e));
    }
}

/// Partial-chunk safety: a body delivered as two chunks, the first not final,
/// pauses on the first and then leaves the direction in the same state, with
/// the same decision, as the body delivered in one final chunk; so the body
/// released for any fetched bytes is the same.
pub proof fn lemma_split_delivery(first: usize, second: usize, t: Transform, body: Option<Seq<u8>>)
    ensures
        ({
            let d0 = DirectionState::initial();
            let (d1, s1) = body_step(d0, first, false);
            let (d2, s2) = body_step(d1, second, true);
            let (e, s) = body_step(d0, saturating_sum(first, second), true);
            &&& s1 == BodyStep::Pause
            &&& d2 == e
            &&& s2 == s
            &&& released_body(d2, t, body) == released_body(e, t, body)
            &&& released_failures(d2, t, body) == released_failures(e, t, body)
        }),
{
}

} // verus!

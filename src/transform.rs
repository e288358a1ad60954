//! Message transforms applied to each frame of a body, and the re-framing of
//! a whole body.

use vstd::prelude::*;
use vstd::slice::slice_to_vec;
use crate::frame::{
    declared_len, encode_frame, first_frame, frame_size, lemma_frame_round_trip, parsed,
    read_be32, serialized, starts_with_frame, HEADER_LEN,
};
use crate::message::{decode_text, encode_text, replace_all, replaced, text_decoded, text_encoded};

verus! {

/// What is done with each frame's message.
pub enum Transform {
    /// Decode, replace every `pattern` in the text field by `replacement`, re-encode.
    /// The message is re-encoded with its text field alone: any other field of
    /// the decoded payload is dropped from a rewritten frame.
    Rewriting { pattern: String, replacement: String },
    /// Decode for inspection only; bytes are never changed.
    Inspecting,
    /// No decoding at all.
    Passthrough,
}

/// Why a frame's message was not decoded (or not re-encoded).
#[derive(Clone, Copy, Debug, PartialEq, Eq, Structural)]
pub enum DecodeFailure {
    /// The frame's compression flag is set.
    Compressed,
    /// The payload does not parse as the message schema.
    Malformed,
    /// The re-encoded message does not fit a frame's 32-bit length.
    Oversized,
}

/// The result of applying a transform to one frame.
pub enum TransformOutcome {
    Unchanged,
    Rewritten(Vec<u8>),
    DecodeFailed(DecodeFailure),
}

impl Transform {
    pub open spec fn rewrites(self) -> bool {
        self is Rewriting
    }

    /// Whether this transform may change bytes.
    pub fn is_rewriting(&self) -> (r: bool)
        ensures
            r == self.rewrites(),
    {
        match self {
            Transform::Rewriting { .. } => true,
            _ => false,
        }
    }
}

/// The re-encoded payload for a frame, where the transform rewrites it.
pub open spec fn frame_rewrite(t: Transform, compressed: bool, payload: Seq<u8>) -> Option<Seq<u8>> {
    match t {
        Transform::Rewriting { pattern, replacement } => {
            if compressed {
                None
            } else {
                match text_decoded(payload) {
                    Some(text) => {
                        let enc = text_encoded(replaced(text, pattern@, replacement@));
                        if enc.len() <= u32::MAX {
                            Some(enc)
                        } else {
                            None
                        }
                    },
                    None => None,
                }
            }
        },
        _ => None,
    }
}

/// Why the transform could not handle a frame's message, if it could not.
pub open spec fn frame_failure(t: Transform, compressed: bool, payload: Seq<u8>) -> Option<DecodeFailure> {
    match t {
        Transform::Passthrough => None,
        _ => {
            if compressed {
                Some(DecodeFailure::Compressed)
            } else {
                match text_decoded(payload) {
                    None => Some(DecodeFailure::Malformed),
                    Some(text) => match t {
                        Transform::Rewriting { pattern, replacement } => {
                            if text_encoded(replaced(text, pattern@, replacement@)).len() > u32::MAX {
                                Some(DecodeFailure::Oversized)
                            } else {
                                None
                            }
                        },
                        _ => None,
                    },
                }
            }
        },
    }
}

/// The outcome of a transform on a frame, as its parts.
pub open spec fn outcome_is(r: TransformOutcome, t: Transform, compressed: bool, payload: Seq<u8>) -> bool {
    match r {
        TransformOutcome::Rewritten(p) => frame_rewrite(t, compressed, payload) == Some(p@),
        TransformOutcome::Unchanged => frame_rewrite(t, compressed, payload) is None
            && frame_failure(t, compressed, payload) is None,
        TransformOutcome::DecodeFailed(e) => frame_rewrite(t, compressed, payload) is None
            && frame_failure(t, compressed, payload) == Some(e),
    }
}

/// Applies `t` to one frame's message.
pub fn transform_frame(t: &Transform, compressed: bool, payload: &[u8]) -> (r: TransformOutcome)
    ensures
        outcome_is(r, *t, compressed, payload@),
{
    match t {
        Transform::Passthrough => TransformOutcome::Unchanged,
        Transform::Inspecting => {
            if compressed {
                return TransformOutcome::DecodeFailed(DecodeFailure::Compressed);
            }
            match decode_text(payload) {
                Ok(_) => TransformOutcome::Unchanged,
                Err(_) => TransformOutcome::DecodeFailed(DecodeFailure::Malformed),
            }
        },
        Transform::Rewriting { pattern, replacement } => {
            if compressed {
                return TransformOutcome::DecodeFailed(DecodeFailure::Compressed);
            }
            match decode_text(payload) {
                Ok(text) => {
                    let new_text = replace_all(text.as_str(), pattern.as_str(), replacement.as_str());
                    outcome_of_encoded(encode_text(&new_text))
                },
                Err(_) => TransformOutcome::DecodeFailed(DecodeFailure::Malformed),
            }
        },
    }
}

/// What is emitted for the complete frame at the start of `s`: its re-framed
/// new payload where it was rewritten, else its original bytes.
pub open spec fn frame_output(t: Transform, s: Seq<u8>) -> Seq<u8> {
    match frame_rewrite(t, first_frame(s).0, first_frame(s).1) {
        Some(p) => serialized(false, p),
        None => s.subrange(0, frame_size(s) as int),
    }
}

/// The body after `t` is applied to each complete frame in order; a trailing
/// partial frame is kept as it is.
pub open spec fn transformed(t: Transform, s: Seq<u8>) -> Seq<u8>
    decreases s.len(),
{
    if starts_with_frame(s) {
        frame_output(t, s) + transformed(t, s.skip(frame_size(s) as int))
    } else {
        s
    }
}

/// The bytes emitted for the complete frame at `body[start..end]`.
/// The flag tells whether the frame was rewritten.
fn emit_frame(t: &Transform, body: &[u8], start: usize, end: usize) -> (r: (Vec<u8>, bool))
    requires
        start <= end <= body@.len(),
        starts_with_frame(body@.skip(start as int)),
        end == start + frame_size(body@.skip(start as int)),
    ensures
        r.0@ == frame_output(*t, body@.skip(start as int)),
        r.1 == frame_rewrite(*t, first_frame(body@.skip(start as int)).0, first_frame(body@.skip(start as int)).1) is Some,
{
    let ghost rest = body@.skip(start as int);
    let payload = &body[start + HEADER_LEN..end];
    let compressed = body[start] != 0;
    assert(payload@ =~= first_frame(rest).1);
    let outcome = transform_frame(t, compressed, payload);
    let raw = &body[start..end];
    assert(raw@ =~= rest.subrange(0, frame_size(rest) as int));
    let rewritten = match &outcome {
        TransformOutcome::Rewritten(_) => true,
        _ => false,
    };
    (emit_outcome(outcome, raw), rewritten)
}

/// The outcome for a message re-encoded as `encoded`: rewritten, unless it
/// does not fit a frame.
pub fn outcome_of_encoded(encoded: Vec<u8>) -> (r: TransformOutcome)
    ensures
        encoded@.len() <= u32::MAX ==> r == TransformOutcome::Rewritten(encoded),
        encoded@.len() > u32::MAX ==> r == TransformOutcome::DecodeFailed(DecodeFailure::Oversized),
{
    if encoded.len() > u32::MAX as usize {
        TransformOutcome::DecodeFailed(DecodeFailure::Oversized)
    } else {
        TransformOutcome::Rewritten(encoded)
    }
}

/// The bytes emitted for a frame whose wire form is `raw`, given the
/// transform's outcome on it: the new payload re-framed, else `raw` itself.
pub fn emit_outcome(outcome: TransformOutcome, raw: &[u8]) -> (r: Vec<u8>)
    requires
        outcome matches TransformOutcome::Rewritten(p) ==> p@.len() <= u32::MAX,
    ensures
        r@ == match outcome {
            TransformOutcome::Rewritten(p) => serialized(false, p@),
            _ => raw@,
        },
{
    match outcome {
        TransformOutcome::Rewritten(p) => encode_frame(false, p.as_slice()),
        _ => slice_to_vec(raw),
    }
}

proof fn lemma_transformed_unfold(t: Transform, s: Seq<u8>)
    requires
        starts_with_frame(s),
    ensures
        transformed(t, s) == frame_output(t, s) + transformed(t, s.skip(frame_size(s) as int)),
{
}

/// Applies `t` to every complete frame of `body` and re-frames the result.
/// Frames that are not rewritten, and a trailing partial frame, are copied
/// byte for byte.
pub fn transform_body(t: &Transform, body: &[u8]) -> (r: Vec<u8>)
    ensures
        r@ == transformed(*t, body@),
{
    reframe_body(t, body).0
}

/// Some complete frame of `s` is rewritten by `t`.
pub open spec fn any_rewritten(t: Transform, s: Seq<u8>) -> bool
    decreases s.len(),
{
    if starts_with_frame(s) {
        frame_rewrite(t, first_frame(s).0, first_frame(s).1) is Some
            || any_rewritten(t, s.skip(frame_size(s) as int))
    } else {
        false
    }
}

/// `transform_body`, and whether any frame was rewritten.
#[verifier::rlimit(20)]
pub fn reframe_body(t: &Transform, body: &[u8]) -> (r: (Vec<u8>, bool))
    ensures
        r.0@ == transformed(*t, body@),
        r.1 == any_rewritten(*t, body@),
{
    let mut out: Vec<u8> = Vec::new();
    let mut pos: usize = 0;
    let mut rewritten = false;
    proof {
        assert(body@.skip(0) =~= body@);
        assert(out@ + transformed(*t, body@) =~= transformed(*t, body@));
    }
    loop
        invariant
            pos <= body@.len(),
            out@ + transformed(*t, body@.skip(pos as int)) == transformed(*t, body@),
            (rewritten || any_rewritten(*t, body@.skip(pos as int))) == any_rewritten(*t, body@),
        ensures
            pos <= body@.len(),
            !starts_with_frame(body@.skip(pos as int)),
            out@ + transformed(*t, body@.skip(pos as int)) == transformed(*t, body@),
            (rewritten || any_rewritten(*t, body@.skip(pos as int))) == any_rewritten(*t, body@),
        decreases body@.len() - pos,
    {
        let ghost rest = body@.skip(pos as int);
        let remaining = body.len() - pos;
        if remaining < HEADER_LEN {
            break;
        }
        let n = read_be32(body, pos + 1);
        assert(n as nat == declared_len(rest));
        if n as usize > remaining - HEADER_LEN {
            break;
        }
        let end = pos + HEADER_LEN + n as usize;
        proof {
            assert(starts_with_frame(rest));
            assert(rest.skip(frame_size(rest) as int) =~= body@.skip(end as int));
        }
        let (mut emitted, frame_rewritten) = emit_frame(t, body, pos, end);
        rewritten = rewritten || frame_rewritten;
        let ghost prev = out@;
        let ghost piece = emitted@;
        out.append(&mut emitted);
        proof {
            lemma_transformed_unfold(*t, rest);
            assert(out@ + transformed(*t, body@.skip(end as int))
                =~= prev + (piece + transformed(*t, body@.skip(end as int))));
        }
        pos = end;
    }
    let ghost prev = out@;
    let mut tail = slice_to_vec(&body[pos..body.len()]);
    proof {
        assert(tail@ =~= body@.skip(pos as int));
    }
    out.append(&mut tail);
    proof {
        assert(out@ =~= transformed(*t, body@));
    }
    (out, rewritten)
}

/// How many complete frames of `s` the transform could not decode (or re-encode).
pub open spec fn failed_frames(t: Transform, s: Seq<u8>) -> nat
    decreases s.len(),
{
    if starts_with_frame(s) {
        (if frame_failure(t, first_frame(s).0, first_frame(s).1) is Some { 1nat } else { 0nat })
            + failed_frames(t, s.skip(frame_size(s) as int))
    } else {
        0
    }
}

/// Counts the complete frames of `body` whose message `t` could not decode
/// (or re-encode); the body itself is not changed.
#[verifier::rlimit(20)]
pub fn inspect_body(t: &Transform, body: &[u8]) -> (r: usize)
    ensures
        r == failed_frames(*t, body@),
{
    let mut count: usize = 0;
    let mut pos: usize = 0;
    proof {
        assert(body@.skip(0) =~= body@);
    }
    loop
        invariant
            pos <= body@.len(),
            count <= pos,
            count + failed_frames(*t, body@.skip(pos as int)) == failed_frames(*t, body@),
        ensures
            !starts_with_frame(body@.skip(pos as int)),
            count + failed_frames(*t, body@.skip(pos as int)) == failed_frames(*t, body@),
        decreases body@.len() - pos,
    {
        let ghost rest = body@.skip(pos as int);
        let remaining = body.len() - pos;
        if remaining < HEADER_LEN {
            break;
        }
        let n = read_be32(body, pos + 1);
        assert(n as nat == declared_len(rest));
        if n as usize > remaining - HEADER_LEN {
            break;
        }
        let end = pos + HEADER_LEN + n as usize;
        let payload = &body[pos + HEADER_LEN..end];
        let compressed = body[pos] != 0;
        proof {
            assert(starts_with_frame(rest));
            assert(payload@ =~= first_frame(rest).1);
            assert(rest.skip(frame_size(rest) as int) =~= body@.skip(end as int));
        }
        match transform_frame(t, compressed, payload) {
            TransformOutcome::DecodeFailed(_) => {
                count = count + 1;
            },
            _ => {},
        }
        pos = end;
    }
    count
}

/// Inspecting and passthrough transforms never change a body, byte for byte.
pub proof fn lemma_non_rewriting_keeps_body(t: Transform, s: Seq<u8>)
    requires
        !t.rewrites(),
    ensures
        transformed(t, s) == s,
    decreases s.len(),
{
    if starts_with_frame(s) {
        let k = frame_size(s) as int;
        lemma_non_rewriting_keeps_body(t, s.skip(k));
        assert(s.subrange(0, k) + s.skip(k) =~= s);
    }
}

/// A rewritten frame is emitted with the length of its new payload, never the
/// old one: it parses back as exactly one uncompressed frame holding that payload.
pub proof fn lemma_rewritten_length(t: Transform, s: Seq<u8>)
    requires
        starts_with_frame(s),
        frame_rewrite(t, first_frame(s).0, first_frame(s).1) is Some,
    ensures
        ({
            let p = frame_rewrite(t, first_frame(s).0, first_frame(s).1)->Some_0;
            &&& declared_len(frame_output(t, s)) == p.len()
            &&& frame_output(t, s).len() == HEADER_LEN + p.len()
            &&& parsed(frame_output(t, s)) == (seq![(false, p)], Seq::<u8>::empty())
        }),
{
    let p = frame_rewrite(t, first_frame(s).0, first_frame(s).1)->Some_0;
    lemma_frame_round_trip(p);
    crate::frame::lemma_be32_of_be_bytes(p.len() as u32);
}

/// Fail-open: a frame whose payload does not decode is emitted byte-identical,
/// and, where the transform decodes at all, reported as malformed.
pub proof fn lemma_malformed_frame_kept(t: Transform, s: Seq<u8>)
    requires
        starts_with_frame(s),
        text_decoded(first_frame(s).1) is None,
    ensures
        frame_rewrite(t, first_frame(s).0, first_frame(s).1) is None,
        frame_output(t, s) == s.subrange(0, frame_size(s) as int),
        !(t is Passthrough) && !first_frame(s).0 ==> frame_failure(t, first_frame(s).0, first_frame(s).1)
            == Some(DecodeFailure::Malformed),
{
}

/// A body of one uncompressed frame whose payload decodes to a text, under a
/// rewriting transform, is rewritten into one uncompressed frame that holds
/// the re-encoded rewritten text and declares that payload's length, where
/// that length fits a frame.
pub proof fn lemma_one_frame_rewritten(t: Transform, s: Seq<u8>)
    requires
        t.rewrites(),
        starts_with_frame(s),
        frame_size(s) == s.len(),
        !first_frame(s).0,
        text_decoded(first_frame(s).1) is Some,
        text_encoded(replaced(text_decoded(first_frame(s).1)->Some_0, t->Rewriting_pattern@,
            t->Rewriting_replacement@)).len() <= u32::MAX,
    ensures
        ({
            let p = text_encoded(replaced(text_decoded(first_frame(s).1)->Some_0, t->Rewriting_pattern@,
                t->Rewriting_replacement@));
            &&& any_rewritten(t, s)
            &&& transformed(t, s) == serialized(false, p)
            &&& declared_len(transformed(t, s)) == p.len()
            &&& parsed(transformed(t, s)) == (seq![(false, p)], Seq::<u8>::empty())
        }),
{
    let p = text_encoded(replaced(text_decoded(first_frame(s).1)->Some_0, t->Rewriting_pattern@,
        t->Rewriting_replacement@));
    assert(frame_rewrite(t, first_frame(s).0, first_frame(s).1) == Some(p));
    let e = s.skip(frame_size(s) as int);
    assert(e =~= Seq::<u8>::empty());
    assert(!starts_with_frame(e));
    assert(!any_rewritten(t, e));
    assert(transformed(t, e) == e);
    assert(transformed(t, s) =~= serialized(false, p));
    lemma_rewritten_length(t, s);
}

/// Two concatenated complete frames are transformed independently, and their
/// outputs come in the original order.
pub proof fn lemma_two_frames(t: Transform, a: Seq<u8>, b: Seq<u8>)
    requires
        starts_with_frame(a),
        frame_size(a) == a.len(),
        starts_with_frame(b),
        frame_size(b) == b.len(),
    ensures
        transformed(t, a + b) == frame_output(t, a) + frame_output(t, b),
{
    let ab = a + b;
    assert(ab.subrange(0, a.len() as int) =~= a);
    assert(declared_len(ab) == declared_len(a));
    assert(first_frame(ab) == first_frame(a)) by {
        assert(first_frame(ab).1 =~= first_frame(a).1);
    }
    assert(ab.skip(a.len() as int) =~= b);
    let e = b.skip(b.len() as int);
    assert(e =~= Seq::<u8>::empty());
    assert(!starts_with_frame(e));
    assert(transformed(t, e) == e);
    assert(b.subrange(0, b.len() as int) =~= b);
    assert(transformed(t, b) =~= frame_output(t, b));
    assert(frame_output(t, ab) == frame_output(t, a));
}

} // verus!

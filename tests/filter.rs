use grpc_body_filter::accumulator::BodyAccumulator;
use grpc_body_filter::context::{Action, BodyStep, DirectionState, FilterContext, FlowState};
use grpc_body_filter::frame::{encode_frame, parse_frames, serialize_frame, GrpcFrame};
use grpc_body_filter::transform::{
    emit_outcome, inspect_body, outcome_of_encoded, transform_body, transform_frame, DecodeFailure, Transform, TransformOutcome,
};

/// A message whose string field 1 holds `text`, as protobuf encodes it.
fn text_message(text: &str) -> Vec<u8> {
    let mut m = vec![0x0A, text.len() as u8];
    m.extend_from_slice(text.as_bytes());
    m
}

fn framed(payload: &[u8]) -> Vec<u8> {
    let mut f = vec![0u8];
    f.extend_from_slice(&(payload.len() as u32).to_be_bytes());
    f.extend_from_slice(payload);
    f
}

fn bob_to_alice() -> Transform {
    Transform::Rewriting { pattern: "Bob".to_string(), replacement: "Alice".to_string() }
}

#[test]
fn frame_round_trip() {
    for payload in [vec![], vec![1u8, 2, 3], vec![0u8; 300]] {
        let frame = GrpcFrame::uncompressed(payload.clone());
        let wire = serialize_frame(&frame);
        assert_eq!(wire.len(), 5 + payload.len());
        let (frames, leftover) = parse_frames(&wire);
        assert_eq!(frames.len(), 1);
        assert!(!frames[0].compressed);
        assert_eq!(frames[0].length as usize, payload.len());
        assert_eq!(frames[0].payload, payload);
        assert!(leftover.is_empty());
    }
}

#[test]
fn serialize_recomputes_length() {
    let frame = GrpcFrame { compressed: false, length: 99, payload: vec![7, 8] };
    assert_eq!(serialize_frame(&frame), vec![0, 0, 0, 0, 2, 7, 8]);
    let frame = GrpcFrame { compressed: true, length: 0, payload: vec![1; 256] };
    let wire = serialize_frame(&frame);
    assert_eq!(&wire[..5], &[1, 0, 0, 1, 0]);
    assert_eq!(encode_frame(false, &[]), vec![0, 0, 0, 0, 0]);
}

#[test]
fn parse_keeps_partial_tail() {
    let mut body = framed(&[1, 2]);
    body.extend_from_slice(&[0, 0, 0, 0, 9, 1, 2]);
    let (frames, leftover) = parse_frames(&body);
    assert_eq!(frames.len(), 1);
    assert_eq!(frames[0].payload, vec![1, 2]);
    assert_eq!(leftover, vec![0, 0, 0, 0, 9, 1, 2]);

    let (frames, leftover) = parse_frames(&[0, 0, 0]);
    assert!(frames.is_empty());
    assert_eq!(leftover, vec![0, 0, 0]);

    let (frames, leftover) = parse_frames(&[2, 0xFF, 0xFF, 0xFF, 0xFF, 1]);
    assert!(frames.is_empty());
    assert_eq!(leftover.len(), 6);

    let (frames, leftover) = parse_frames(&[]);
    assert!(frames.is_empty());
    assert!(leftover.is_empty());
}

#[test]
fn parse_reads_flag_and_order() {
    let mut body = vec![1, 0, 0, 0, 1, 5];
    body.extend(framed(&[6, 7]));
    let (frames, leftover) = parse_frames(&body);
    assert_eq!(frames.len(), 2);
    assert!(frames[0].compressed);
    assert_eq!(frames[0].payload, vec![5]);
    assert!(!frames[1].compressed);
    assert_eq!(frames[1].payload, vec![6, 7]);
    assert!(leftover.is_empty());
}

#[test]
fn rewritten_frame_carries_new_length() {
    let body = framed(&text_message("Bob"));
    let out = transform_body(&bob_to_alice(), &body);
    let expected_payload = text_message("Alice");
    assert_eq!(expected_payload.len(), 7);
    assert_eq!(out, framed(&expected_payload));
    assert_eq!(&out[1..5], &[0, 0, 0, 7]);
}

#[test]
fn inspecting_and_passthrough_keep_bytes() {
    let mut body = framed(&text_message("Bob"));
    body.extend(framed(&[0x0A, 0x05, 0x61]));
    body.extend_from_slice(&[1, 0, 0]);
    assert_eq!(transform_body(&Transform::Inspecting, &body), body);
    assert_eq!(transform_body(&Transform::Passthrough, &body), body);
}

#[test]
fn split_delivery_matches_single_chunk() {
    let body = framed(&text_message("Bob42"));
    for split in [3usize, 5, 7] {
        let mut two = FilterContext::rewriting(1, "Bob".to_string(), "Alice".to_string());
        assert_eq!(two.on_request_body(split, false), BodyStep::Pause);
        let step_two = two.on_request_body(body.len() - split, true);
        let mut one = FilterContext::rewriting(2, "Bob".to_string(), "Alice".to_string());
        let step_one = one.on_request_body(body.len(), true);
        assert_eq!(step_two, step_one);
        assert_eq!(step_one, BodyStep::Fetch { max_len: body.len() });
        assert_eq!(two.request, one.request);
        let a = two.release_request_body(Some(&body));
        let b = one.release_request_body(Some(&body));
        assert_eq!(a.action, Action::Continue);
        assert_eq!(a.replacement, b.replacement);
        assert_eq!(a.replacement, Some(framed(&text_message("Alice42"))));
    }
}

#[test]
fn malformed_payload_forwarded() {
    let payload = vec![0x0A, 0x05, 0x61];
    let body = framed(&payload);
    assert!(matches!(
        transform_frame(&bob_to_alice(), false, &payload),
        TransformOutcome::DecodeFailed(DecodeFailure::Malformed)
    ));
    assert!(matches!(
        transform_frame(&Transform::Inspecting, false, &payload),
        TransformOutcome::DecodeFailed(DecodeFailure::Malformed)
    ));
    let mut ctx = FilterContext::rewriting(7, "Bob".to_string(), "Alice".to_string());
    assert_eq!(ctx.on_request_body(body.len(), true), BodyStep::Fetch { max_len: body.len() });
    let r = ctx.release_request_body(Some(&body));
    assert_eq!(r.action, Action::Continue);
    assert_eq!(r.replacement, None);
    assert_eq!(r.failed_frames, 1);
}

#[test]
fn unsatisfiable_length_not_replaced() {
    let body = vec![0u8, 0xFF, 0xFF, 0xFF, 0xFF, 0x0A, 0x03, b'B', b'o', b'b'];
    assert_eq!(transform_body(&bob_to_alice(), &body), body);
    let mut ctx = FilterContext::rewriting(13, "Bob".to_string(), "Alice".to_string());
    assert_eq!(ctx.on_request_body(body.len(), true), BodyStep::Fetch { max_len: body.len() });
    let r = ctx.release_request_body(Some(&body));
    assert_eq!(r.action, Action::Continue);
    assert_eq!(r.replacement, None);
    assert_eq!(r.failed_frames, 0);
}

#[test]
fn mixed_body_replaced_when_one_frame_rewritten() {
    let mut body = framed(&[0x0A, 0x05, 0x61]);
    body.extend(framed(&text_message("Bob")));
    let mut ctx = FilterContext::rewriting(14, "Bob".to_string(), "Alice".to_string());
    assert_eq!(ctx.on_request_body(body.len(), true), BodyStep::Fetch { max_len: body.len() });
    let r = ctx.release_request_body(Some(&body));
    let mut expected = framed(&[0x0A, 0x05, 0x61]);
    expected.extend(framed(&text_message("Alice")));
    assert_eq!(r.replacement, Some(expected));
    assert_eq!(r.failed_frames, 1);
}

#[test]
fn invalid_utf8_is_malformed() {
    let payload = vec![0x0A, 0x01, 0xFF];
    assert!(matches!(
        transform_frame(&bob_to_alice(), false, &payload),
        TransformOutcome::DecodeFailed(DecodeFailure::Malformed)
    ));
    assert_eq!(transform_body(&bob_to_alice(), &framed(&payload)), framed(&payload));
}

#[test]
fn compressed_frame_not_decoded() {
    let payload = text_message("Bob");
    assert!(matches!(
        transform_frame(&bob_to_alice(), true, &payload),
        TransformOutcome::DecodeFailed(DecodeFailure::Compressed)
    ));
    let mut body = vec![1u8];
    body.extend_from_slice(&(payload.len() as u32).to_be_bytes());
    body.extend_from_slice(&payload);
    assert_eq!(transform_body(&bob_to_alice(), &body), body);
}

#[test]
fn end_to_end_request() {
    let payload = text_message("Bob42");
    assert_eq!(payload.len(), 7);
    let mut body = vec![0x00, 0x00, 0x00, 0x00, 0x07];
    body.extend_from_slice(&payload);
    let mut ctx = FilterContext::rewriting(3, "Bob".to_string(), "Alice".to_string());
    let headers = ctx.on_request_headers(4, false);
    assert_eq!(headers.action, Action::Continue);
    assert!(headers.clear_content_length);
    assert_eq!(ctx.on_request_body(body.len(), true), BodyStep::Fetch { max_len: 12 });
    let r = ctx.release_request_body(Some(&body));
    assert_eq!(r.action, Action::Continue);
    let mut expected = vec![0x00, 0x00, 0x00, 0x00, 0x09];
    expected.extend_from_slice(&[0x0A, 0x07]);
    expected.extend_from_slice(b"Alice42");
    assert_eq!(r.replacement, Some(expected));
    assert_eq!(ctx.request.state, FlowState::Released);
    assert_eq!(ctx.on_request_body(5, true), BodyStep::Continue);
    assert_eq!(ctx.on_response_headers(2, false), Action::Continue);
}

#[test]
fn short_body_released_unmodified() {
    let mut ctx = FilterContext::rewriting(4, "Bob".to_string(), "Alice".to_string());
    assert_eq!(ctx.on_request_body(3, true), BodyStep::Continue);
    assert_eq!(ctx.request.state, FlowState::Released);
    assert_eq!(ctx.request.accumulator.received_bytes, 3);
    assert!(ctx.request.accumulator.is_too_short());
}

#[test]
fn two_frames_transformed_in_order() {
    let mut body = framed(&text_message("Bob"));
    body.extend(framed(&text_message("no match")));
    body.extend(framed(&text_message("Bob and Bob")));
    let out = transform_body(&bob_to_alice(), &body);
    let mut expected = framed(&text_message("Alice"));
    expected.extend(framed(&text_message("no match")));
    expected.extend(framed(&text_message("Alice and Alice")));
    assert_eq!(out, expected);
}

#[test]
fn empty_pattern_inserts_everywhere() {
    let t = Transform::Rewriting { pattern: String::new(), replacement: "-".to_string() };
    let out = transform_body(&t, &framed(&text_message("ab")));
    assert_eq!(out, framed(&text_message("-a-b-")));
}

#[test]
fn empty_text_encodes_to_nothing() {
    let out = transform_body(&bob_to_alice(), &framed(&[]));
    assert_eq!(out, framed(&[]));
    let t = Transform::Rewriting { pattern: "x".to_string(), replacement: String::new() };
    assert_eq!(transform_body(&t, &framed(&text_message("xx"))), framed(&[]));
    assert!(matches!(
        transform_frame(&t, false, &text_message("x")),
        TransformOutcome::Rewritten(ref p) if p.is_empty()
    ));
}

#[test]
fn headers_clear_content_length_once() {
    let mut ctx = FilterContext::rewriting(5, "Bob".to_string(), "Alice".to_string());
    assert!(ctx.on_request_headers(3, true).clear_content_length);
    assert!(!ctx.on_request_headers(3, true).clear_content_length);
    let mut ctx = FilterContext::inspecting(6);
    let h = ctx.on_request_headers(3, true);
    assert_eq!(h.action, Action::Continue);
    assert!(!h.clear_content_length);
    assert!(!FilterContext::passthrough(8).on_request_headers(1, false).clear_content_length);
}

#[test]
fn non_rewriting_contexts_never_replace() {
    let body = framed(&text_message("Bob"));
    let mut ctx = FilterContext::inspecting(9);
    assert_eq!(ctx.on_response_body(2, false), BodyStep::Pause);
    assert_eq!(ctx.on_response_body(body.len() - 2, true), BodyStep::Fetch { max_len: body.len() });
    let r = ctx.release_response_body(Some(&body));
    assert_eq!(r.action, Action::Continue);
    assert_eq!(r.replacement, None);
    assert_eq!(ctx.response.state, FlowState::Released);

    let mut ctx = FilterContext::rewriting(10, "Bob".to_string(), "Alice".to_string());
    assert_eq!(ctx.on_response_body(body.len(), true), BodyStep::Fetch { max_len: body.len() });
    assert_eq!(ctx.release_response_body(Some(&body)).replacement, None);
    assert_eq!(ctx.request.state, FlowState::Buffering);
}

#[test]
fn missing_body_releases_without_replacement() {
    let mut ctx = FilterContext::rewriting(11, "Bob".to_string(), "Alice".to_string());
    assert_eq!(ctx.on_request_body(20, true), BodyStep::Fetch { max_len: 20 });
    let r = ctx.release_request_body(None);
    assert_eq!(r.action, Action::Continue);
    assert_eq!(r.replacement, None);
    let r = ctx.release_request_body(Some(&[0, 0, 0, 0, 0]));
    assert_eq!(r.replacement, None);
}

#[test]
fn accumulator_counts_and_saturates() {
    let mut acc = BodyAccumulator::new();
    assert!(!acc.should_request_full_body());
    acc.on_chunk(4, false);
    assert!(!acc.is_too_short());
    acc.on_chunk(usize::MAX, false);
    assert_eq!(acc.received_bytes, usize::MAX);
    acc.on_chunk(1, true);
    assert!(acc.should_request_full_body());
    acc.on_chunk(0, false);
    assert!(acc.end_of_stream_seen);

    let mut d = DirectionState::new();
    assert_eq!(d.on_body(0, true), BodyStep::Continue);
    assert_eq!(d.state, FlowState::Released);
}

#[test]
fn inspect_counts_undecodable_frames() {
    let mut body = framed(&text_message("Bob"));
    body.extend(framed(&[0x0A, 0x05, 0x61]));
    body.extend(framed(&[0x0A, 0x01, 0xFF]));
    body.extend_from_slice(&[0, 0, 0]);
    assert_eq!(inspect_body(&Transform::Inspecting, &body), 2);
    assert_eq!(inspect_body(&bob_to_alice(), &body), 2);
    assert_eq!(inspect_body(&Transform::Passthrough, &body), 0);
    assert_eq!(inspect_body(&Transform::Inspecting, &[]), 0);
    assert!(matches!(
        transform_frame(&Transform::Inspecting, false, &text_message("Bob")),
        TransformOutcome::Unchanged
    ));
    assert!(matches!(
        transform_frame(&Transform::Passthrough, true, &[0xFF]),
        TransformOutcome::Unchanged
    ));

    let mut ctx = FilterContext::inspecting(12);
    assert_eq!(ctx.on_request_body(body.len(), true), BodyStep::Fetch { max_len: body.len() });
    let r = ctx.release_request_body(Some(&body));
    assert_eq!(r.failed_frames, 2);
    assert_eq!(r.replacement, None);
    let again = ctx.release_request_body(Some(&body));
    assert_eq!(again.failed_frames, 0);
}

#[test]
fn outcome_and_emission_on_given_values() {
    assert!(matches!(
        outcome_of_encoded(vec![0x0A, 0x01, 0x41]),
        TransformOutcome::Rewritten(ref p) if p == &vec![0x0A, 0x01, 0x41]
    ));
    let raw = vec![2u8, 0, 0, 0, 1, 9];
    assert_eq!(emit_outcome(TransformOutcome::Unchanged, &raw), raw);
    assert_eq!(
        emit_outcome(TransformOutcome::DecodeFailed(DecodeFailure::Malformed), &raw),
        raw
    );
    assert_eq!(
        emit_outcome(TransformOutcome::Rewritten(vec![4, 5, 6]), &raw),
        vec![0, 0, 0, 0, 3, 4, 5, 6]
    );
}

#[test]
fn rewrite_encodes_varint_length_and_utf8() {
    let long = "x".repeat(130);
    let t = Transform::Rewriting { pattern: "Bob".to_string(), replacement: long.clone() };
    let out = transform_body(&t, &framed(&text_message("Bob")));
    let mut payload = vec![0x0A, 0x82, 0x01];
    payload.extend_from_slice(long.as_bytes());
    assert_eq!(out, framed(&payload));

    let t = Transform::Rewriting { pattern: "Bob".to_string(), replacement: "\u{e9}".to_string() };
    let out = transform_body(&t, &framed(&text_message("Bob")));
    assert_eq!(out, framed(&[0x0A, 0x02, 0xC3, 0xA9]));
}

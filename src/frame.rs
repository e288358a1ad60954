//! The gRPC length-prefixed message framing:
//! `[1 byte compression flag][4 bytes big-endian length][payload]`.

use vstd::prelude::*;
use vstd::slice::slice_to_vec;

verus! {

/// Bytes in a frame header: the compression flag and the length.
pub const HEADER_LEN: usize = 5;

/// One length-delimited gRPC message unit.
pub struct GrpcFrame {
    pub compressed: bool,
    pub length: u32,
    pub payload: Vec<u8>,
}

impl View for GrpcFrame {
    type V = (bool, Seq<u8>);

    open spec fn view(&self) -> (bool, Seq<u8>) {
        (self.compressed, self.payload@)
    }
}

impl GrpcFrame {
    /// The length field agrees with the payload.
    pub open spec fn wf(&self) -> bool {
        self.length as nat == self.payload@.len()
    }

    /// An uncompressed frame around `payload`, its length taken from the payload.
    pub fn uncompressed(payload: Vec<u8>) -> (r: GrpcFrame)
        requires
            payload@.len() <= u32::MAX,
        ensures
            r@ == (false, payload@),
            r.wf(),
    {
        let length = payload.len() as u32;
        GrpcFrame { compressed: false, length, payload }
    }
}

/// The value of four bytes read as a big-endian `u32`.
pub open spec fn be32(b0: u8, b1: u8, b2: u8, b3: u8) -> u32 {
    ((b0 as u32) << 24u32) | ((b1 as u32) << 16u32) | ((b2 as u32) << 8u32) | (b3 as u32)
}

/// The four big-endian bytes of `n`.
pub open spec fn be_bytes(n: u32) -> Seq<u8> {
    seq![
        (n >> 24u32) as u8,
        ((n >> 16u32) & 0xffu32) as u8,
        ((n >> 8u32) & 0xffu32) as u8,
        (n & 0xffu32) as u8,
    ]
}

/// The payload length declared by the header at the start of `s`.
pub open spec fn declared_len(s: Seq<u8>) -> nat
    recommends
        s.len() >= HEADER_LEN,
{
    be32(s[1], s[2], s[3], s[4]) as nat
}

/// `s` starts with a complete frame.
pub open spec fn starts_with_frame(s: Seq<u8>) -> bool {
    s.len() >= HEADER_LEN && s.len() >= HEADER_LEN + declared_len(s)
}

/// The wire size of the frame at the start of `s`.
pub open spec fn frame_size(s: Seq<u8>) -> nat {
    (HEADER_LEN + declared_len(s)) as nat
}

/// The frame at the start of `s`, as (compressed, payload).
pub open spec fn first_frame(s: Seq<u8>) -> (bool, Seq<u8>) {
    (s[0] != 0, s.subrange(HEADER_LEN as int, frame_size(s) as int))
}

/// The complete frames at the start of `s`, in order, and the bytes after them.
pub open spec fn parsed(s: Seq<u8>) -> (Seq<(bool, Seq<u8>)>, Seq<u8>)
    decreases s.len(),
{
    if starts_with_frame(s) {
        let rest = parsed(s.skip(frame_size(s) as int));
        (seq![first_frame(s)] + rest.0, rest.1)
    } else {
        (Seq::empty(), s)
    }
}

/// The wire form of a frame: flag byte, big-endian payload length, payload.
pub open spec fn serialized(compressed: bool, payload: Seq<u8>) -> Seq<u8> {
    seq![if compressed { 1u8 } else { 0u8 }] + be_bytes(payload.len() as u32) + payload
}

pub open spec fn frames_view(v: Seq<GrpcFrame>) -> Seq<(bool, Seq<u8>)> {
    v.map_values(|f: GrpcFrame| f@)
}

pub(crate) proof fn lemma_be32_of_be_bytes(n: u32)
    ensures
        be32(be_bytes(n)[0], be_bytes(n)[1], be_bytes(n)[2], be_bytes(n)[3]) == n,
{
    assert(be32((n >> 24u32) as u8, ((n >> 16u32) & 0xffu32) as u8, ((n >> 8u32) & 0xffu32) as u8, (n & 0xffu32) as u8) == n) by (bit_vector);
}

/// Reads the big-endian `u32` at `b[i..i + 4]`.
pub(crate) fn read_be32(b: &[u8], i: usize) -> (r: u32)
    requires
        i + 4 <= b@.len(),
    ensures
        r == be32(b@[i as int], b@[i + 1], b@[i + 2], b@[i + 3]),
{
    ((b[i] as u32) << 24u32) | ((b[i + 1] as u32) << 16u32) | ((b[i + 2] as u32) << 8u32) | (b[i + 3] as u32)
}

/// Splits `body` into its complete frames and the unconsumed tail (a partial
/// frame still awaiting data, possibly empty). Never fails: a declared length
/// that the buffer cannot satisfy ends the scan.
#[verifier::rlimit(20)]
pub fn parse_frames(body: &[u8]) -> (r: (Vec<GrpcFrame>, Vec<u8>))
    ensures
        frames_view(r.0@) == parsed(body@).0,
        r.1@ == parsed(body@).1,
        forall|i: int| 0 <= i < r.0@.len() ==> (#[trigger] r.0@[i]).wf(),
{
    let mut frames: Vec<GrpcFrame> = Vec::new();
    let mut pos: usize = 0;
    proof {
        assert(body@.skip(0) =~= body@);
        assert(frames_view(frames@) + parsed(body@).0 =~= parsed(body@).0);
    }
    loop
        invariant
            pos <= body@.len(),
            frames_view(frames@) + parsed(body@.skip(pos as int)).0 == parsed(body@).0,
            parsed(body@.skip(pos as int)).1 == parsed(body@).1,
            forall|i: int| 0 <= i < frames@.len() ==> (#[trigger] frames@[i]).wf(),
        ensures
            pos <= body@.len(),
            !starts_with_frame(body@.skip(pos as int)),
        decreases body@.len() - pos,
    {
        let ghost rest = body@.skip(pos as int);
        let remaining = body.len() - pos;
        if remaining < HEADER_LEN {
            break;
        }
        let n = read_be32(body, pos + 1);
        assert(n == be32(rest[1], rest[2], rest[3], rest[4]));
        if n as usize > remaining - HEADER_LEN {
            break;
        }
        let end = pos + HEADER_LEN + n as usize;
        let payload = slice_to_vec(&body[pos + HEADER_LEN..end]);
        let frame = GrpcFrame { compressed: body[pos] != 0, length: n, payload };
        proof {
            assert(starts_with_frame(rest));
            assert(rest.skip(frame_size(rest) as int) =~= body@.skip(end as int));
            assert(frame@ == first_frame(rest)) by {
                assert(frame.payload@ =~= rest.subrange(HEADER_LEN as int, frame_size(rest) as int));
            }
            assert(frames_view(frames@.push(frame)) =~= frames_view(frames@) + seq![frame@]);
            assert(seq![frame@] + parsed(body@.skip(end as int)).0 == parsed(rest).0);
            assert(frames_view(frames@.push(frame)) + parsed(body@.skip(end as int)).0
                =~= frames_view(frames@) + parsed(rest).0);
        }
        frames.push(frame);
        pos = end;
    }
    proof {
        let rest = body@.skip(pos as int);
        assert(parsed(rest).0 =~= Seq::empty());
        assert(frames_view(frames@) + parsed(rest).0 =~= frames_view(frames@));
    }
    let leftover = slice_to_vec(&body[pos..body.len()]);
    assert(leftover@ =~= body@.skip(pos as int));
    (frames, leftover)
}

/// Writes a frame in wire form. The length written is always the payload's
/// own length; the frame's `length` field is not read.
pub fn serialize_frame(frame: &GrpcFrame) -> (r: Vec<u8>)
    requires
        frame.payload@.len() <= u32::MAX,
    ensures
        r@ == serialized(frame.compressed, frame.payload@),
{
    encode_frame(frame.compressed, frame.payload.as_slice())
}

/// Wire form of a frame with the given flag and payload.
pub fn encode_frame(compressed: bool, payload: &[u8]) -> (r: Vec<u8>)
    requires
        payload@.len() <= u32::MAX,
    ensures
        r@ == serialized(compressed, payload@),
{
    let n = payload.len() as u32;
    let mut out: Vec<u8> = Vec::new();
    out.push(if compressed { 1u8 } else { 0u8 });
    out.push((n >> 24u32) as u8);
    out.push(((n >> 16u32) & 0xffu32) as u8);
    out.push(((n >> 8u32) & 0xffu32) as u8);
    out.push((n & 0xffu32) as u8);
    let mut i: usize = 0;
    while i < payload.len()
        invariant
            i <= payload@.len(),
            out@ == serialized(compressed, payload@).subrange(0, HEADER_LEN + i),
            n == payload@.len(),
        decreases payload@.len() - i,
    {
        out.push(payload[i]);
        i = i + 1;
        assert(out@ =~= serialized(compressed, payload@).subrange(0, HEADER_LEN + i));
    }
    assert(out@ =~= serialized(compressed, payload@));
    out
}

/// The frame round trip: parsing the wire form of an uncompressed frame gives
/// back exactly that frame, with nothing left over.
pub proof fn lemma_frame_round_trip(payload: Seq<u8>)
    requires
        payload.len() <= u32::MAX,
    ensures
        parsed(serialized(false, payload)).0 == seq![(false, payload)],
        parsed(serialized(false, payload)).1 == Seq::<u8>::empty(),
{
    let s = serialized(false, payload);
    let n = payload.len() as u32;
    lemma_be32_of_be_bytes(n);
    assert(declared_len(s) == payload.len());
    assert(starts_with_frame(s));
    let tail = s.skip(frame_size(s) as int);
    assert(tail =~= Seq::<u8>::empty());
    assert(parsed(tail) == (Seq::<(bool, Seq<u8>)>::empty(), tail));
    assert(first_frame(s).1 =~= payload);
    assert(parsed(s).0 =~= seq![(false, payload)]);
}

} // verus!

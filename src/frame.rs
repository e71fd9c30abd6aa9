//! The reliable-channel wire format: every message is a little-endian `u32`
//! byte count followed by exactly that many payload bytes.

use vstd::prelude::*;

verus! {

/// Largest payload that a length prefix can describe.
pub const MAX_PAYLOAD: usize = 0xffff_ffff;

/// The number that four bytes denote in little-endian order.
pub open spec fn le_u32(b: Seq<u8>) -> nat
    recommends
        b.len() == 4,
{
    (b[0] as nat) + 256 * (b[1] as nat) + 65536 * (b[2] as nat) + 16777216 * (b[3] as nat)
}

/// The four little-endian bytes of `n`.
pub open spec fn le_bytes(n: nat) -> Seq<u8> {
    seq![
        (n % 256) as u8,
        ((n / 256) % 256) as u8,
        ((n / 65536) % 256) as u8,
        ((n / 16777216) % 256) as u8,
    ]
}

/// The bytes that carry `payload` on the wire: its length prefix, then itself.
pub open spec fn frame_of(payload: Seq<u8>) -> Seq<u8> {
    le_bytes(payload.len()) + payload
}

/// Where the frame at the start of `s` ends, once its prefix is complete.
pub open spec fn frame_end(s: Seq<u8>) -> int {
    4 + le_u32(s.take(4)) as int
}

/// Whether `s` starts with a complete frame.
pub open spec fn has_frame(s: Seq<u8>) -> bool {
    s.len() >= 4 && s.len() >= frame_end(s)
}

/// Decoding the prefix of a length gives the length back.
pub proof fn lemma_le_round_trip(n: nat)
    requires
        n <= MAX_PAYLOAD,
    ensures
        le_bytes(n).len() == 4,
        le_u32(le_bytes(n)) == n,
{
    assert(n == n % 256 + 256 * ((n / 256) % 256) + 65536 * ((n / 65536) % 256) + 16777216 * (
    (n / 16777216) % 256)) by (nonlinear_arith)
        requires
            n <= 0xffff_ffff,
    ;
}

/// A whole frame, read from its start, is complete exactly at its end and
/// carries the payload it was made from.
pub proof fn lemma_frame_of(payload: Seq<u8>)
    requires
        payload.len() <= MAX_PAYLOAD,
    ensures
        frame_of(payload).len() == 4 + payload.len(),
        frame_of(payload).take(4) == le_bytes(payload.len()),
        frame_end(frame_of(payload)) == frame_of(payload).len(),
        has_frame(frame_of(payload)),
        frame_of(payload).subrange(4, frame_of(payload).len() as int) == payload,
{
    lemma_le_round_trip(payload.len());
    let f = frame_of(payload);
    assert(f.take(4) =~= le_bytes(payload.len()));
    assert(f.subrange(4, f.len() as int) =~= payload);
}

/// Reads a little-endian `u32` from four bytes.
pub fn decode_length(b: &[u8; 4]) -> (r: u32)
    ensures
        r as nat == le_u32(b@),
{
    let b0 = b[0] as u32;
    let b1 = b[1] as u32;
    let b2 = b[2] as u32;
    let b3 = b[3] as u32;
    b0 + 256 * b1 + 65536 * b2 + 16777216 * b3
}

/// Frames `payload` for the wire: the little-endian length, then the bytes.
pub fn encode_frame(payload: &[u8]) -> (r: Vec<u8>)
    requires
        payload@.len() <= MAX_PAYLOAD,
    ensures
        r@ == frame_of(payload@),
{
    let n = payload.len();
    let mut out: Vec<u8> = Vec::new();
    out.push((n % 256) as u8);
    out.push(((n / 256) % 256) as u8);
    out.push(((n / 65536) % 256) as u8);
    out.push(((n / 16777216) % 256) as u8);
    let mut i: usize = 0;
    while i < payload.len()
        invariant
            i <= payload@.len(),
            n == payload@.len(),
            out@ == le_bytes(n as nat) + payload@.take(i as int),
        decreases payload@.len() - i,
    {
        out.push(payload[i]);
        i = i + 1;
        assert(payload@.take(i as int) =~= payload@.take(i - 1) .push(payload@[i - 1]));
        assert(out@ =~= le_bytes(n as nat) + payload@.take(i as int));
    }
    assert(payload@.take(i as int) =~= payload@);
    out
}

} // verus!

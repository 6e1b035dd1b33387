//! Length-prefixed framing of plain TCP streams: a 2-byte big-endian length,
//! then the payload.

use vstd::prelude::*;

verus! {

/// The largest payload a frame can carry.
pub const MAX_FRAME_PAYLOAD: usize = 65535;

/// The frame that carries `payload`.
pub open spec fn frame_of(payload: Seq<u8>) -> Seq<u8> {
    seq![(payload.len() / 256) as u8, (payload.len() % 256) as u8] + payload
}

/// The length announced by the header at the start of `buf`.
pub open spec fn header_len(buf: Seq<u8>) -> int {
    buf[0] as int * 256 + buf[1] as int
}

/// Whether `buf` starts with a whole frame.
pub open spec fn has_frame(buf: Seq<u8>) -> bool {
    buf.len() >= 2 && buf.len() >= 2 + header_len(buf)
}

/// Frames `payload` for a plain TCP stream.
pub fn encode_frame(payload: &Vec<u8>) -> (r: Vec<u8>)
    requires
        payload@.len() <= MAX_FRAME_PAYLOAD,
    ensures
        r@ == frame_of(payload@),
{
    let n = payload.len();
    let mut r: Vec<u8> = Vec::with_capacity(n + 2);
    r.push((n / 256) as u8);
    r.push((n % 256) as u8);
    let mut i: usize = 0;
    while i < n
        invariant
            n == payload@.len(),
            i <= n,
            r@ == seq![(n / 256) as u8, (n % 256) as u8] + payload@.subrange(0, i as int),
        decreases n - i,
    {
        r.push(payload[i]);
        i = i + 1;
        assert(payload@.subrange(0, i as int) == payload@.subrange(0, i - 1) + seq![payload@[i - 1]]);
    }
    assert(payload@.subrange(0, n as int) == payload@);
    r
}

/// Takes the first frame off the front of `buf`: its payload and the number of
/// bytes it used, or `None` while the frame is incomplete.
pub fn decode_frame(buf: &[u8]) -> (r: Option<(Vec<u8>, usize)>)
    ensures
        r.is_some() == has_frame(buf@),
        r matches Some((p, used)) ==> used == 2 + header_len(buf@)
            && p@ == buf@.subrange(2, used as int),
{
    if buf.len() < 2 {
        return None;
    }
    let n: usize = buf[0] as usize * 256 + buf[1] as usize;
    if buf.len() - 2 < n {
        return None;
    }
    let len = buf.len();
    let mut p: Vec<u8> = Vec::with_capacity(n);
    let mut i: usize = 0;
    while i < n
        invariant
            i <= n,
            len == buf@.len(),
            n + 2 <= len,
            p@ == buf@.subrange(2, 2 + i),
        decreases n - i,
    {
        p.push(buf[2 + i]);
        i = i + 1;
        assert(buf@.subrange(2, 2 + i) == buf@.subrange(2, 2 + i - 1) + seq![buf@[2 + i - 1]]);
    }
    Some((p, n + 2))
}

/// Decoding what `encode_frame` produced, followed by any further bytes, gives
/// back the payload and consumes exactly the frame.
pub proof fn lemma_frame_round_trip(payload: Seq<u8>, rest: Seq<u8>)
    requires
        payload.len() <= MAX_FRAME_PAYLOAD,
    ensures
        has_frame(frame_of(payload) + rest),
        header_len(frame_of(payload) + rest) == payload.len(),
        (frame_of(payload) + rest).subrange(2, 2 + payload.len() as int) == payload,
{
    let b = frame_of(payload) + rest;
    assert(b[0] == (payload.len() / 256) as u8);
    assert(b[1] == (payload.len() % 256) as u8);
    assert(b.subrange(2, 2 + payload.len() as int) =~= payload);
}

} // verus!

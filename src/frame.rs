//! Length-prefixed frames: a 32-bit big-endian payload length, then the
//! payload, at most one GiB of it.
use vstd::prelude::*;

verus! {

/// The largest payload a frame may carry: one GiB.
pub const MAX_FRAME_LEN: u32 = 0x4000_0000;

/// A length as four big-endian bytes.
pub open spec fn be32_bytes(n: u32) -> Seq<u8> {
    seq![(n >> 24u32) as u8, (n >> 16u32) as u8, (n >> 8u32) as u8, n as u8]
}

/// Four big-endian bytes read as a length.
pub open spec fn be32_value(b0: u8, b1: u8, b2: u8, b3: u8) -> u32 {
    ((b0 as u32) << 24u32) | ((b1 as u32) << 16u32) | ((b2 as u32) << 8u32) | (b3 as u32)
}

/// The length announced by the header at the start of `b`.
pub open spec fn header_value(b: Seq<u8>) -> u32 {
    be32_value(b[0], b[1], b[2], b[3])
}

/// The bytes of a frame carrying `p`.
pub open spec fn frame_bytes(p: Seq<u8>) -> Seq<u8> {
    be32_bytes(p.len() as u32) + p
}

proof fn lemma_be32_round_trip(n: u32)
    ensures
        be32_value((n >> 24u32) as u8, (n >> 16u32) as u8, (n >> 8u32) as u8, n as u8) == n,
{
    assert(((((n >> 24u32) as u8) as u32) << 24u32) | ((((n >> 16u32) as u8) as u32) << 16u32)
        | ((((n >> 8u32) as u8) as u32) << 8u32) | ((n as u8) as u32) == n) by (bit_vector);
}

/// A frame within the limit is read back as exactly its payload, whatever
/// bytes follow it on the channel.
pub proof fn lemma_frame_round_trip(p: Seq<u8>, rest: Seq<u8>)
    requires
        p.len() <= MAX_FRAME_LEN,
    ensures
        (frame_bytes(p) + rest).len() >= 4,
        header_value(frame_bytes(p) + rest) == p.len(),
        (frame_bytes(p) + rest).subrange(4, 4 + p.len() as int) == p,
{
    let b = frame_bytes(p) + rest;
    let n = p.len() as u32;
    lemma_be32_round_trip(n);
    assert(b[0] == (n >> 24u32) as u8);
    assert(b[1] == (n >> 16u32) as u8);
    assert(b[2] == (n >> 8u32) as u8);
    assert(b[3] == n as u8);
    assert(b.subrange(4, 4 + p.len() as int) =~= p);
}

/// A header that announces more than the limit is reported with that
/// length; skipping the header and that many bytes leaves the channel at
/// the next frame, which then reads back as its payload.
pub proof fn lemma_oversized_frame_skipped(n: u32, body: Seq<u8>, p: Seq<u8>, rest: Seq<u8>)
    requires
        n > MAX_FRAME_LEN,
        body.len() == n,
        p.len() <= MAX_FRAME_LEN,
    ensures
        header_value(be32_bytes(n) + body + frame_bytes(p) + rest) == n,
        (be32_bytes(n) + body + frame_bytes(p) + rest).subrange(
            4 + n as int,
            (be32_bytes(n) + body + frame_bytes(p) + rest).len() as int,
        ) == frame_bytes(p) + rest,
{
    let b = be32_bytes(n) + body + frame_bytes(p) + rest;
    lemma_be32_round_trip(n);
    assert(b[0] == (n >> 24u32) as u8);
    assert(b[1] == (n >> 16u32) as u8);
    assert(b[2] == (n >> 8u32) as u8);
    assert(b[3] == n as u8);
    assert(b.subrange(4 + n as int, b.len() as int) =~= frame_bytes(p) + rest);
    lemma_frame_round_trip(p, rest);
}

/// Why a frame could not be written.
#[derive(Debug, Clone, Copy, PartialEq, Eq, Structural)]
pub enum FrameError {
    /// The payload is longer than the limit.
    TooLarge,
}

/// The frame that carries `payload`; refused when the payload exceeds the
/// limit.
pub fn encode_frame(payload: &[u8]) -> (r: Result<Vec<u8>, FrameError>)
    ensures
        payload@.len() > MAX_FRAME_LEN ==> r == Err::<Vec<u8>, FrameError>(FrameError::TooLarge),
        payload@.len() <= MAX_FRAME_LEN ==> (r matches Ok(b) && b@ == frame_bytes(payload@)),
{
    if payload.len() > MAX_FRAME_LEN as usize {
        return Err(FrameError::TooLarge);
    }
    let n = payload.len() as u32;
    let mut out: Vec<u8> = Vec::new();
    out.push((n >> 24u32) as u8);
    out.push((n >> 16u32) as u8);
    out.push((n >> 8u32) as u8);
    out.push(n as u8);
    crate::bytes::push_all(&mut out, payload);
    assert(out@ =~= frame_bytes(payload@));
    Ok(out)
}

/// What the start of a receive buffer holds.
#[derive(Debug, Clone)]
pub enum Decoded {
    /// Not yet a whole frame.
    Incomplete,
    /// A whole frame: its payload, and how many bytes it took.
    Frame(Vec<u8>, usize),
    /// A header announcing more than the limit; the reader skips the
    /// header and that many bytes, and the channel goes on.
    Oversized(u32),
}

/// Reads the frame at the start of `buf`.
pub fn decode_frame(buf: &[u8]) -> (r: Decoded)
    ensures
        buf@.len() < 4 ==> r is Incomplete,
        buf@.len() >= 4 ==> {
            let n = header_value(buf@);
            &&& n > MAX_FRAME_LEN ==> r == Decoded::Oversized(n)
            &&& n <= MAX_FRAME_LEN && buf@.len() < 4 + n ==> r is Incomplete
            &&& n <= MAX_FRAME_LEN && buf@.len() >= 4 + n ==> (r matches Decoded::Frame(p, used)
                && p@ == buf@.subrange(4, 4 + n as int) && used == 4 + n)
        },
{
    if buf.len() < 4 {
        return Decoded::Incomplete;
    }
    let n: u32 = ((buf[0] as u32) << 24u32) | ((buf[1] as u32) << 16u32) | ((buf[2] as u32) << 8u32)
        | (buf[3] as u32);
    assert(n == header_value(buf@));
    if n > MAX_FRAME_LEN {
        return Decoded::Oversized(n);
    }
    let end: usize = 4 + n as usize;
    if buf.len() < end {
        return Decoded::Incomplete;
    }
    let payload = vstd::slice::slice_to_vec(vstd::slice::slice_subrange(buf, 4, end));
    Decoded::Frame(payload, end)
}

} // verus!

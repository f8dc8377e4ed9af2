//! The framing layer: each wire frame is a four-byte big-endian payload
//! length followed by exactly that many payload bytes. Encoding builds one
//! frame; decoding strips one complete frame off the front of a buffer and
//! refuses to return anything for a partial frame.
use vstd::prelude::*;

verus! {

/// The four big-endian bytes of a 32-bit length, most significant first.
pub open spec fn u32_be(n: u32) -> Seq<u8> {
    seq![
        ((n >> 24) & 0xff) as u8,
        ((n >> 16) & 0xff) as u8,
        ((n >> 8) & 0xff) as u8,
        (n & 0xff) as u8,
    ]
}

/// The 32-bit value read back from four big-endian bytes.
pub open spec fn be_u32(b0: u8, b1: u8, b2: u8, b3: u8) -> u32 {
    ((b0 as u32) << 24) | ((b1 as u32) << 16) | ((b2 as u32) << 8) | (b3 as u32)
}

/// One wire frame: the payload's length as four big-endian bytes, then the
/// payload itself.
pub open spec fn frame_for(payload: Seq<u8>) -> Seq<u8>
    recommends
        payload.len() <= u32::MAX,
{
    u32_be(payload.len() as u32) + payload
}

/// The payload length announced by a buffer's first four bytes.
pub open spec fn announced_len(b: Seq<u8>) -> nat
    recommends
        b.len() >= 4,
{
    be_u32(b[0], b[1], b[2], b[3]) as nat
}

/// The buffer starts with one complete frame: the length prefix is all there
/// and the announced number of payload bytes follows it.
pub open spec fn has_complete_frame(b: Seq<u8>) -> bool {
    b.len() >= 4 && 4 + announced_len(b) <= b.len()
}

/// Reading back the four big-endian bytes of `n` yields `n`.
proof fn lemma_be_inverse(n: u32)
    ensures
        be_u32(
            ((n >> 24) & 0xff) as u8,
            ((n >> 16) & 0xff) as u8,
            ((n >> 8) & 0xff) as u8,
            (n & 0xff) as u8,
        ) == n,
{
    assert(((((n >> 24) & 0xff) as u8) as u32) << 24 | ((((n >> 16) & 0xff) as u8) as u32) << 16
        | ((((n >> 8) & 0xff) as u8) as u32) << 8 | (((n & 0xff) as u8) as u32) == n)
        by (bit_vector);
}

/// Writes one frame holding `payload`.
pub fn encode_frame(payload: &Vec<u8>) -> (frame: Vec<u8>)
    requires
        payload@.len() <= u32::MAX,
    ensures
        frame@ == frame_for(payload@),
        frame@.len() == 4 + payload@.len(),
{
    let n = payload.len() as u32;
    assert((n >> 24) & 0xff < 256 && (n >> 16) & 0xff < 256 && (n >> 8) & 0xff < 256 && n & 0xff
        < 256) by (bit_vector);
    let mut frame: Vec<u8> = Vec::new();
    frame.push(((n >> 24) & 0xff) as u8);
    frame.push(((n >> 16) & 0xff) as u8);
    frame.push(((n >> 8) & 0xff) as u8);
    frame.push((n & 0xff) as u8);
    frame.extend_from_slice(payload.as_slice());
    proof {
        assert(frame@ =~= frame_for(payload@));
    }
    frame
}

/// Strips one complete frame off the front of `buf`. Returns the payload and
/// the number of bytes consumed, or `None` while the buffer still holds only
/// part of a frame: partial data is never handed out.
pub fn decode_frame(buf: &Vec<u8>) -> (r: Option<(Vec<u8>, usize)>)
    ensures
        match r {
            Some(pc) => {
                &&& has_complete_frame(buf@)
                &&& pc.1 == 4 + announced_len(buf@)
                &&& pc.0@ == buf@.subrange(4, pc.1 as int)
            },
            None => !has_complete_frame(buf@),
        },
{
    if buf.len() < 4 {
        return None;
    }
    let n = be_u32_exec(buf[0], buf[1], buf[2], buf[3]);
    let n = n as usize;
    if buf.len() - 4 < n {
        return None;
    }
    let end = 4 + n;
    let mut payload: Vec<u8> = Vec::new();
    let mut i: usize = 4;
    while i < end
        invariant
            4 <= i <= end,
            end <= buf@.len(),
            payload@ == buf@.subrange(4, i as int),
        decreases end - i,
    {
        payload.push(buf[i]);
        proof {
            assert(buf@.subrange(4, i + 1 as int) =~= buf@.subrange(4, i as int).push(
                buf@[i as int],
            ));
        }
        i = i + 1;
    }
    Some((payload, end))
}

/// Combines four big-endian bytes into the 32-bit value they spell.
fn be_u32_exec(b0: u8, b1: u8, b2: u8, b3: u8) -> (n: u32)
    ensures
        n == be_u32(b0, b1, b2, b3),
{
    ((b0 as u32) << 24) | ((b1 as u32) << 16) | ((b2 as u32) << 8) | (b3 as u32)
}

/// Framing round trip: a frame built from any payload, however short or long
/// and whatever bytes follow it on the stream, decodes back to exactly that
/// payload.
pub proof fn lemma_frame_round_trip(payload: Seq<u8>, rest: Seq<u8>)
    requires
        payload.len() <= u32::MAX,
    ensures
        has_complete_frame(frame_for(payload) + rest),
        announced_len(frame_for(payload) + rest) == payload.len(),
        (frame_for(payload) + rest).subrange(4, 4 + payload.len() as int) == payload,
{
    let n = payload.len() as u32;
    let b = frame_for(payload) + rest;
    lemma_be_inverse(n);
    assert(b[0] == u32_be(n)[0] && b[1] == u32_be(n)[1] && b[2] == u32_be(n)[2] && b[3] == u32_be(
        n,
    )[3]);
    assert(announced_len(b) == payload.len());
    assert(b.subrange(4, 4 + payload.len() as int) =~= payload);
}

} // verus!

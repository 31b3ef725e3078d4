//! Length-delimited framing for the snapshot transport.
//!
//! Every message travels as a four-byte big-endian payload length followed
//! by the payload itself.  No cap is imposed below what the length field
//! can express: a bundle grows with the service count and must not be
//! artificially truncated.  A decode on a buffer that does not yet hold a
//! whole frame reports nothing; the caller reads more and tries again.

use vstd::prelude::*;

verus! {

/// The four length bytes, most significant first.
pub open spec fn frame_len_bytes(x: u32) -> Seq<u8> {
    seq![
        ((x >> 24) & 0xff) as u8,
        ((x >> 16) & 0xff) as u8,
        ((x >> 8) & 0xff) as u8,
        (x & 0xff) as u8,
    ]
}

/// The length read back from four bytes.
pub open spec fn frame_len_value(s: Seq<u8>) -> u32
    recommends
        s.len() == 4,
{
    ((s[0] as u32) << 24) | ((s[1] as u32) << 16) | ((s[2] as u32) << 8) | (s[3] as u32)
}

/// A framed payload: its length, then its bytes.
pub open spec fn enc_frame(payload: Seq<u8>) -> Seq<u8>
    recommends
        payload.len() <= u32::MAX,
{
    frame_len_bytes(payload.len() as u32) + payload
}

/// Read one frame: the payload and the remainder, or nothing while the
/// buffer does not yet hold a whole frame.
pub open spec fn dec_frame(s: Seq<u8>) -> Option<(Seq<u8>, Seq<u8>)> {
    if s.len() >= 4 {
        let n = frame_len_value(s.take(4)) as int;
        if s.len() - 4 >= n {
            Some((s.subrange(4, 4 + n), s.skip(4 + n)))
        } else {
            None
        }
    } else {
        None
    }
}

/// The length bytes read back give the length.
proof fn lemma_frame_len_inverse(x: u32)
    ensures
        frame_len_value(frame_len_bytes(x)) == x,
{
    let b0 = ((x >> 24) & 0xff) as u8;
    let b1 = ((x >> 16) & 0xff) as u8;
    let b2 = ((x >> 8) & 0xff) as u8;
    let b3 = (x & 0xff) as u8;
    assert(((b0 as u32) << 24) | ((b1 as u32) << 16) | ((b2 as u32) << 8) | (b3 as u32) == x)
        by (bit_vector)
        requires
            b0 == ((x >> 24) & 0xff) as u8,
            b1 == ((x >> 16) & 0xff) as u8,
            b2 == ((x >> 8) & 0xff) as u8,
            b3 == (x & 0xff) as u8,
    ;
}

/// The framing round trip: one frame followed by more bytes is read back
/// as exactly its payload and those bytes.
pub proof fn lemma_frame_round_trip(payload: Seq<u8>, rest: Seq<u8>)
    requires
        payload.len() <= u32::MAX,
    ensures
        dec_frame(enc_frame(payload) + rest) == Some((payload, rest)),
{
    let s = enc_frame(payload) + rest;
    lemma_frame_len_inverse(payload.len() as u32);
    assert(s.take(4) =~= frame_len_bytes(payload.len() as u32));
    assert(s.subrange(4, 4 + payload.len() as int) =~= payload);
    assert(s.skip(4 + payload.len() as int) =~= rest);
}

/// Wrap a payload into a frame.  Nothing is produced for a payload too
/// large for the length field.
pub fn encode_frame(payload: &Vec<u8>) -> (r: Option<Vec<u8>>)
    ensures
        r is Some <==> payload@.len() <= u32::MAX,
        r matches Some(v) ==> v@ == enc_frame(payload@),
{
    let len = payload.len();
    if len > 0xFFFF_FFFFusize {
        return None;
    }
    let n = len as u32;
    let mut out: Vec<u8> = Vec::new();
    out.push(((n >> 24) & 0xff) as u8);
    out.push(((n >> 16) & 0xff) as u8);
    out.push(((n >> 8) & 0xff) as u8);
    out.push((n & 0xff) as u8);
    let mut body = vstd::slice::slice_to_vec(payload.as_slice());
    out.append(&mut body);
    proof {
        assert(out@ =~= enc_frame(payload@));
    }
    Some(out)
}

/// Read one frame out of a buffer: the payload and how many bytes of the
/// buffer it used.  Nothing is returned while the buffer does not yet hold
/// a whole frame.
pub fn decode_frame(bytes: &Vec<u8>) -> (r: Option<(Vec<u8>, usize)>)
    ensures
        match r {
            Some((p, used)) => used <= bytes@.len() && dec_frame(bytes@) == Some(
                (p@, bytes@.skip(used as int)),
            ),
            None => dec_frame(bytes@) is None,
        },
{
    let total = bytes.len();
    if total < 4 {
        return None;
    }
    let n: u32 = ((bytes[0] as u32) << 24) | ((bytes[1] as u32) << 16) | ((bytes[2] as u32) << 8)
        | (bytes[3] as u32);
    proof {
        assert(bytes@.take(4)[0] == bytes@[0]);
        assert(bytes@.take(4)[1] == bytes@[1]);
        assert(bytes@.take(4)[2] == bytes@[2]);
        assert(bytes@.take(4)[3] == bytes@[3]);
    }
    if (total - 4) as u64 >= n as u64 {
        let l = n as usize;
        let sub = vstd::slice::slice_subrange(bytes.as_slice(), 4, 4 + l);
        let payload = vstd::slice::slice_to_vec(sub);
        Some((payload, 4 + l))
    } else {
        None
    }
}

} // verus!

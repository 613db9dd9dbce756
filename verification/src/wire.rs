//! Bootstrap wire format.
//!
//! During bootstrap each side sends the opaque listen handle of its
//! transport endpoint over TCP as a little-endian `u32` length followed
//! by the handle bytes, and reads its peer's handle the same way. This
//! module builds and parses those frames; the sockets themselves are
//! driven by the caller.

use vstd::prelude::*;

verus! {

/// The value of four little-endian bytes.
pub open spec fn u32_le(b: Seq<u8>) -> u32
    recommends
        b.len() == 4,
{
    (b[0] as int + 256 * (b[1] as int) + 65536 * (b[2] as int) + 16777216 * (b[3] as int)) as u32
}

/// The four little-endian bytes of `x`.
pub open spec fn u32_le_bytes(x: u32) -> Seq<u8> {
    seq![
        (x % 256) as u8,
        ((x / 256) % 256) as u8,
        ((x / 65536) % 256) as u8,
        ((x / 16777216) % 256) as u8,
    ]
}

/// A handle framed for the bootstrap stream: the length as a
/// little-endian `u32`, then the handle bytes.
pub open spec fn spec_encode_frame(h: Seq<u8>) -> Seq<u8>
    recommends
        h.len() <= u32::MAX,
{
    u32_le_bytes(h.len() as u32) + h
}

/// What reading one frame from the front of `f` yields: the handle
/// bytes and how many bytes of `f` they spanned, or nothing when `f` is
/// too short for the length word or for the length it declares.
pub open spec fn spec_decode_frame(f: Seq<u8>) -> Option<(Seq<u8>, int)> {
    if f.len() < 4 {
        None
    } else {
        let n = u32_le(f.take(4)) as int;
        if f.len() < 4 + n {
            None
        } else {
            Some((f.subrange(4, 4 + n), 4 + n))
        }
    }
}

/// Little-endian encoding loses nothing: the four bytes of `x` read
/// back as `x`.
pub proof fn lemma_u32_le_round_trip(x: u32)
    ensures
        u32_le(u32_le_bytes(x)) == x,
{
    assert(x % 256 + 256 * ((x / 256) % 256) + 65536 * ((x / 65536) % 256) + 16777216 * ((x
        / 16777216) % 256) == x) by (bit_vector);
}

/// The bootstrap round trip: a handle written as a length-prefixed
/// frame is read back exactly, consuming exactly the frame.
pub proof fn lemma_frame_round_trip(h: Seq<u8>)
    requires
        h.len() <= u32::MAX,
    ensures
        spec_decode_frame(spec_encode_frame(h)) == Some((h, 4 + h.len() as int)),
{
    let f = spec_encode_frame(h);
    lemma_u32_le_round_trip(h.len() as u32);
    assert(f.take(4) =~= u32_le_bytes(h.len() as u32));
    assert(u32_le(f.take(4)) == h.len());
    assert(f.subrange(4, 4 + h.len() as int) =~= h);
}

/// Reads a `u32` out of four little-endian bytes, as the bootstrap
/// reader does after pulling the length word off the stream.
pub fn decode_u32_le(b: &Vec<u8>) -> (r: u32)
    requires
        b@.len() == 4,
    ensures
        r == u32_le(b@),
{
    let r: u32 = b[0] as u32 + 256 * (b[1] as u32) + 65536 * (b[2] as u32) + 16777216 * (b[3]
        as u32);
    r
}

/// Writes `x` as four little-endian bytes, as the bootstrap writer
/// sends the length word.
pub fn encode_u32_le(x: u32) -> (r: Vec<u8>)
    ensures
        r@ == u32_le_bytes(x),
        r@.len() == 4,
{
    let mut r: Vec<u8> = Vec::new();
    r.push((x % 256) as u8);
    r.push(((x / 256) % 256) as u8);
    r.push(((x / 65536) % 256) as u8);
    r.push(((x / 16777216) % 256) as u8);
    proof {
        assert(r@ =~= u32_le_bytes(x));
    }
    r
}

/// Frames a handle for the bootstrap stream: its length as a
/// little-endian `u32`, then its bytes.
pub fn encode_frame(handle: &Vec<u8>) -> (r: Vec<u8>)
    requires
        handle@.len() <= u32::MAX,
    ensures
        r@ == spec_encode_frame(handle@),
        r@.len() == 4 + handle@.len(),
{
    let mut r = encode_u32_le(handle.len() as u32);
    let mut k: usize = 0;
    while k < handle.len()
        invariant
            k <= handle@.len(),
            handle@.len() <= u32::MAX,
            r@.len() == 4 + k,
            r@.take(4) == u32_le_bytes(handle@.len() as u32),
            r@.skip(4) == handle@.take(k as int),
        decreases handle@.len() - k,
    {
        r.push(handle[k]);
        proof {
            assert(r@.take(4) =~= u32_le_bytes(handle@.len() as u32));
            assert(r@.skip(4) =~= handle@.take(k + 1));
        }
        k += 1;
    }
    proof {
        assert(handle@.take(handle@.len() as int) =~= handle@);
        assert(r@ =~= r@.take(4) + r@.skip(4));
        assert(r@ =~= spec_encode_frame(handle@));
    }
    r
}

/// Reads one frame from the front of `bytes`: the handle and the number
/// of bytes consumed. Returns `None` exactly when `bytes` is shorter
/// than the length word or than the length the word declares.
pub fn decode_frame(bytes: &Vec<u8>) -> (r: Option<(Vec<u8>, usize)>)
    ensures
        match r {
            Some(p) => {
                &&& spec_decode_frame(bytes@) == Some((p.0@, p.1 as int))
                &&& p.0@.len() <= u32::MAX
            },
            None => spec_decode_frame(bytes@) is None,
        },
{
    if bytes.len() < 4 {
        return None;
    }
    let mut word: Vec<u8> = Vec::new();
    word.push(bytes[0]);
    word.push(bytes[1]);
    word.push(bytes[2]);
    word.push(bytes[3]);
    proof {
        assert(word@ =~= bytes@.take(4));
    }
    let n = decode_u32_le(&word) as usize;
    if bytes.len() - 4 < n {
        return None;
    }
    let mut handle: Vec<u8> = Vec::new();
    let mut k: usize = 0;
    while k < n
        invariant
            k <= n,
            n <= usize::MAX - 4,
            bytes@.len() >= 4 + n,
            handle@.len() == k,
            handle@ == bytes@.subrange(4, 4 + k as int),
        decreases n - k,
    {
        handle.push(bytes[4 + k]);
        proof {
            assert(handle@ =~= bytes@.subrange(4, 4 + (k + 1)));
        }
        k += 1;
    }
    Some((handle, 4 + n))
}

} // verus!

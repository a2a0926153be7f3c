//! Message framing: a 4-byte length prefix followed by that many payload
//! bytes. The prefix is fixed to little-endian byte order so that framing is
//! identical on every platform.

use vstd::prelude::*;
use vstd::arithmetic::div_mod::{lemma_div_denominator, lemma_fundamental_div_mod};

verus! {

/// The number encoded by four little-endian bytes.
pub open spec fn spec_le_u32(b: Seq<u8>) -> int
    recommends
        b.len() == 4,
{
    b[0] + 256 * (b[1] + 256 * (b[2] + 256 * b[3]))
}

/// Decodes a 4-byte little-endian length prefix.
pub fn read_u32(buf: &[u8; 4]) -> (r: u32)
    ensures
        r == spec_le_u32(buf@),
{
    let b0 = buf[0] as u32;
    let b1 = buf[1] as u32;
    let b2 = buf[2] as u32;
    let b3 = buf[3] as u32;
    b0 + 256 * (b1 + 256 * (b2 + 256 * b3))
}

/// Encodes a length as four little-endian bytes; the inverse of `read_u32`.
pub fn u32_to_le(n: u32) -> (r: [u8; 4])
    ensures
        r@.len() == 4,
        spec_le_u32(r@) == n,
{
    let b0 = (n % 256) as u8;
    let b1 = ((n / 256) % 256) as u8;
    let b2 = ((n / 65536) % 256) as u8;
    let b3 = (n / 16777216) as u8;
    let r = [b0, b1, b2, b3];
    proof {
        lemma_fundamental_div_mod(n as int, 256);
        lemma_fundamental_div_mod(n as int / 256, 256);
        lemma_fundamental_div_mod(n as int / 65536, 256);
        lemma_div_denominator(n as int, 256, 256);
        lemma_div_denominator(n as int, 65536, 256);
        assert(r@ == seq![b0, b1, b2, b3]);
        assert(r@[0] == b0 && r@[1] == b1 && r@[2] == b2 && r@[3] == b3);
    }
    r
}

/// Frames a payload for the wire: its length as a 4-byte little-endian
/// prefix, then the payload bytes themselves, unchanged.
pub fn encode_frame(payload: &Vec<u8>) -> (r: Vec<u8>)
    requires
        payload@.len() <= u32::MAX,
    ensures
        r@.len() == 4 + payload@.len(),
        spec_le_u32(r@.subrange(0, 4)) == payload@.len(),
        r@.skip(4) == payload@,
{
    let len = payload.len() as u32;
    let prefix = u32_to_le(len);
    let mut out: Vec<u8> = Vec::new();
    out.push(prefix[0]);
    out.push(prefix[1]);
    out.push(prefix[2]);
    out.push(prefix[3]);
    let mut i: usize = 0;
    while i < payload.len()
        invariant
            i <= payload@.len(),
            out@.len() == 4 + i,
            out@.subrange(0, 4) =~= prefix@,
            out@.skip(4) =~= payload@.take(i as int),
        decreases payload@.len() - i,
    {
        out.push(payload[i]);
        i += 1;
    }
    proof {
        assert(out@.subrange(0, 4) =~= prefix@);
        assert(out@.skip(4) =~= payload@);
    }
    out
}

} // verus!

//! Big-endian 32-bit integers, as they stand in the chunk stream.

use vstd::prelude::*;

verus! {

/// The four big-endian bytes of `x`.
pub open spec fn be_u32_bytes(x: u32) -> Seq<u8> {
    seq![(x >> 24) as u8, (x >> 16) as u8, (x >> 8) as u8, x as u8]
}

/// The integer that the first four bytes of `b` spell, most significant first.
pub open spec fn be_u32_value(b: Seq<u8>) -> u32
    recommends
        b.len() >= 4,
{
    ((b[0] as u32) << 24) | ((b[1] as u32) << 16) | ((b[2] as u32) << 8) | (b[3] as u32)
}

/// Reading back the bytes written for `x` gives `x`.
pub proof fn lemma_be_u32_round_trip(x: u32)
    ensures
        be_u32_value(be_u32_bytes(x)) == x,
{
    let b = be_u32_bytes(x);
    assert(b[0] == (x >> 24) as u8 && b[1] == (x >> 16) as u8 && b[2] == (x >> 8) as u8 && b[3] == x as u8);
    assert(((((x >> 24) as u8) as u32) << 24) | ((((x >> 16) as u8) as u32) << 16) | ((((x >> 8) as u8) as u32) << 8)
        | ((x as u8) as u32) == x) by (bit_vector);
}

/// Writing the integer that four bytes spell gives those bytes back.
pub proof fn lemma_be_u32_bytes_of_value(b: Seq<u8>)
    requires
        b.len() == 4,
    ensures
        be_u32_bytes(be_u32_value(b)) == b,
{
    let (b0, b1, b2, b3) = (b[0], b[1], b[2], b[3]);
    let x = be_u32_value(b);
    assert(x == ((b0 as u32) << 24) | ((b1 as u32) << 16) | ((b2 as u32) << 8) | (b3 as u32));
    assert({
        let v = ((b0 as u32) << 24) | ((b1 as u32) << 16) | ((b2 as u32) << 8) | (b3 as u32);
        &&& (v >> 24) as u8 == b0
        &&& (v >> 16) as u8 == b1
        &&& (v >> 8) as u8 == b2
        &&& v as u8 == b3
    }) by (bit_vector);
    assert(be_u32_bytes(x) =~= b);
}

/// The big-endian bytes of `x`.
pub fn u32_to_be(x: u32) -> (r: [u8; 4])
    ensures
        r@ == be_u32_bytes(x),
{
    let r: [u8; 4] = [(x >> 24) as u8, (x >> 16) as u8, (x >> 8) as u8, x as u8];
    assert(r@ =~= be_u32_bytes(x));
    r
}

/// The big-endian integer held in `b` at `at`.
pub fn u32_from_be(b: &[u8], at: usize) -> (r: u32)
    requires
        at + 4 <= b@.len(),
    ensures
        r == be_u32_value(b@.subrange(at as int, at + 4)),
{
    ((b[at] as u32) << 24) | ((b[at + 1] as u32) << 16) | ((b[at + 2] as u32) << 8) | (b[at + 3] as u32)
}

} // verus!

//! Big-endian encoding of 32-bit integers, as used by the PNG wire format.

use vstd::prelude::*;

verus! {

/// The four big-endian bytes of `x`, most significant first.
pub open spec fn u32_be(x: u32) -> Seq<u8> {
    seq![
        (x / 0x1000000) as u8,
        ((x / 0x10000) % 0x100) as u8,
        ((x / 0x100) % 0x100) as u8,
        (x % 0x100) as u8,
    ]
}

/// The integer read from four big-endian bytes.
pub open spec fn be_u32(s: Seq<u8>) -> u32
    recommends
        s.len() == 4,
{
    (s[0] as u32 as int * 0x1000000 + s[1] as u32 as int * 0x10000 + s[2] as u32 as int * 0x100
        + s[3] as u32 as int) as u32
}

/// Reading back the four big-endian bytes of `x` recovers `x`.
pub proof fn lemma_be_round_trip(x: u32)
    ensures
        be_u32(u32_be(x)) == x,
{
    assert(((x / 0x1000000) as u8) as u32 == x / 0x1000000) by (bit_vector);
    assert((((x / 0x10000) % 0x100) as u8) as u32 == (x / 0x10000) % 0x100) by (bit_vector);
    assert((((x / 0x100) % 0x100) as u8) as u32 == (x / 0x100) % 0x100) by (bit_vector);
    assert(((x % 0x100) as u8) as u32 == x % 0x100) by (bit_vector);
    assert((x / 0x1000000) as int * 0x1000000 + ((x / 0x10000) % 0x100) as int * 0x10000 + ((x
        / 0x100) % 0x100) as int * 0x100 + (x % 0x100) as int == x) by (bit_vector);
}

/// Builds the four big-endian bytes of `x`.
pub fn u32_to_be(x: u32) -> (r: [u8; 4])
    ensures
        r@ == u32_be(x),
{
    let r = [(x / 0x1000000) as u8, ((x / 0x10000) % 0x100) as u8, ((x / 0x100) % 0x100) as u8, (x
        % 0x100) as u8];
    proof {
        assert(r@ =~= u32_be(x));
    }
    r
}

/// Reads a `u32` from four big-endian bytes.
pub fn be_to_u32(b0: u8, b1: u8, b2: u8, b3: u8) -> (r: u32)
    ensures
        r == be_u32(seq![b0, b1, b2, b3]),
{
    (b0 as u32) * 0x1000000 + (b1 as u32) * 0x10000 + (b2 as u32) * 0x100 + (b3 as u32)
}

} // verus!

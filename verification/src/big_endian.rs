use vstd::prelude::*;

verus! {

/// The value of four bytes read as a 32-bit big-endian integer, most
/// significant byte first.
pub open spec fn spec_u32_from_be(b0: u8, b1: u8, b2: u8, b3: u8) -> u32 {
    ((b0 as u32) << 24) | ((b1 as u32) << 16) | ((b2 as u32) << 8) | (b3 as u32)
}

/// The four big-endian bytes of a 32-bit value, most significant byte first.
pub open spec fn spec_u32_to_be(x: u32) -> Seq<u8> {
    seq![
        ((x >> 24) & 0xff) as u8,
        ((x >> 16) & 0xff) as u8,
        ((x >> 8) & 0xff) as u8,
        (x & 0xff) as u8,
    ]
}

pub fn u32_from_be(b0: u8, b1: u8, b2: u8, b3: u8) -> (r: u32)
    ensures
        r == spec_u32_from_be(b0, b1, b2, b3),
{
    ((b0 as u32) << 24) | ((b1 as u32) << 16) | ((b2 as u32) << 8) | (b3 as u32)
}

pub fn u32_to_be(x: u32) -> (r: [u8; 4])
    ensures
        r@ == spec_u32_to_be(x),
{
    assert((x >> 24) & 0xff <= 0xff) by (bit_vector);
    assert((x >> 16) & 0xff <= 0xff) by (bit_vector);
    assert((x >> 8) & 0xff <= 0xff) by (bit_vector);
    assert(x & 0xff <= 0xff) by (bit_vector);
    let r: [u8; 4] = [
        ((x >> 24) & 0xff) as u8,
        ((x >> 16) & 0xff) as u8,
        ((x >> 8) & 0xff) as u8,
        (x & 0xff) as u8,
    ];
    proof {
        assert(r@ =~= spec_u32_to_be(x));
    }
    r
}

/// Writing a value as four big-endian bytes and reading them back yields the
/// value again.
pub proof fn lemma_u32_be_round_trip(x: u32)
    ensures
        spec_u32_from_be(
            spec_u32_to_be(x)[0],
            spec_u32_to_be(x)[1],
            spec_u32_to_be(x)[2],
            spec_u32_to_be(x)[3],
        ) == x,
{
    assert(((((x >> 24) & 0xff) as u8 as u32) << 24) | ((((x >> 16) & 0xff) as u8 as u32) << 16)
        | ((((x >> 8) & 0xff) as u8 as u32) << 8) | ((x & 0xff) as u8 as u32) == x)
        by (bit_vector);
}

/// Two byte quadruples that read as the same big-endian value are the same
/// quadruple.
pub proof fn lemma_u32_from_be_injective(
    a0: u8,
    a1: u8,
    a2: u8,
    a3: u8,
    b0: u8,
    b1: u8,
    b2: u8,
    b3: u8,
)
    requires
        spec_u32_from_be(a0, a1, a2, a3) == spec_u32_from_be(b0, b1, b2, b3),
    ensures
        a0 == b0 && a1 == b1 && a2 == b2 && a3 == b3,
{
    assert(a0 == b0 && a1 == b1 && a2 == b2 && a3 == b3) by (bit_vector)
        requires
            ((a0 as u32) << 24) | ((a1 as u32) << 16) | ((a2 as u32) << 8) | (a3 as u32) == ((
            b0 as u32) << 24) | ((b1 as u32) << 16) | ((b2 as u32) << 8) | (b3 as u32),
    ;
}

} // verus!

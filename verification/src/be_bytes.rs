//! Conversion between `u32` and big-endian byte sequences, as the container
//! format stores every length and checksum field.

use vstd::prelude::*;

verus! {

/// The four bytes of `x`, most significant first.
pub open spec fn spec_u32_to_be_bytes(x: u32) -> Seq<u8> {
    seq![
        ((x >> 24) & 0xff) as u8,
        ((x >> 16) & 0xff) as u8,
        ((x >> 8) & 0xff) as u8,
        (x & 0xff) as u8,
    ]
}

/// The `u32` whose big-endian bytes are `s`.
pub open spec fn spec_u32_from_be_bytes(s: Seq<u8>) -> u32
    recommends
        s.len() == 4,
{
    (s[0] as u32) << 24 | (s[1] as u32) << 16 | (s[2] as u32) << 8 | (s[3] as u32)
}

/// Big-endian encoding and decoding of a `u32` invert each other.
pub proof fn lemma_u32_be_bytes_roundtrip()
    ensures
        forall|x: u32|
            {
                &&& (#[trigger] spec_u32_to_be_bytes(x)).len() == 4
                &&& spec_u32_from_be_bytes(spec_u32_to_be_bytes(x)) == x
            },
        forall|s: Seq<u8>|
            s.len() == 4 ==> #[trigger] spec_u32_to_be_bytes(spec_u32_from_be_bytes(s)) == s,
{
    assert forall|x: u32|
        {
            &&& (#[trigger] spec_u32_to_be_bytes(x)).len() == 4
            &&& spec_u32_from_be_bytes(spec_u32_to_be_bytes(x)) == x
        } by {
        assert((x >> 24) & 0xff < 256 && (x >> 16) & 0xff < 256 && (x >> 8) & 0xff < 256 && x
            & 0xff < 256) by (bit_vector);
        assert(x == ((x >> 24) & 0xff) << 24 | ((x >> 16) & 0xff) << 16 | ((x >> 8) & 0xff) << 8
            | (x & 0xff)) by (bit_vector);
    }
    assert forall|s: Seq<u8>| s.len() == 4 implies #[trigger] spec_u32_to_be_bytes(
        spec_u32_from_be_bytes(s),
    ) == s by {
        let x = spec_u32_from_be_bytes(s);
        let s0 = s[0] as u32;
        let s1 = s[1] as u32;
        let s2 = s[2] as u32;
        let s3 = s[3] as u32;
        assert(((x == s0 << 24 | s1 << 16 | s2 << 8 | s3) && s0 < 256 && s1 < 256 && s2 < 256
            && s3 < 256) ==> (s0 == (x >> 24) & 0xff && s1 == (x >> 16) & 0xff && s2 == (x >> 8)
            & 0xff && s3 == x & 0xff)) by (bit_vector);
        assert(spec_u32_to_be_bytes(spec_u32_from_be_bytes(s)) =~= s);
    }
}

/// Write `x` as four bytes, most significant first.
pub fn u32_to_be_bytes(x: u32) -> (r: [u8; 4])
    ensures
        r@ == spec_u32_to_be_bytes(x),
{
    let b0: u8 = ((x >> 24) & 0xff) as u8;
    let b1: u8 = ((x >> 16) & 0xff) as u8;
    let b2: u8 = ((x >> 8) & 0xff) as u8;
    let b3: u8 = (x & 0xff) as u8;
    let r = [b0, b1, b2, b3];
    proof {
        assert(r@ =~= spec_u32_to_be_bytes(x));
    }
    r
}

/// Read a `u32` from four bytes, most significant first.
pub fn u32_from_be_bytes(s: &[u8]) -> (x: u32)
    requires
        s@.len() == 4,
    ensures
        x == spec_u32_from_be_bytes(s@),
{
    (s[0] as u32) << 24 | (s[1] as u32) << 16 | (s[2] as u32) << 8 | (s[3] as u32)
}

} // verus!

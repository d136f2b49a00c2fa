use vstd::prelude::*;

verus! {

/// The two bytes of `v`, the high one first.
pub open spec fn spec_u16_be(v: u16) -> Seq<u8> {
    seq![(v / 256) as u8, (v % 256) as u8]
}

/// The four bytes of `v`, the highest first.
pub open spec fn spec_u32_be(v: u32) -> Seq<u8> {
    seq![
        (v / 16777216) as u8,
        ((v / 65536) % 256) as u8,
        ((v / 256) % 256) as u8,
        (v % 256) as u8,
    ]
}

/// The number that the first two bytes of `s` spell, the high one first.
#[verifier::opaque]
pub open spec fn spec_u16_from_be(s: Seq<u8>) -> u16 {
    (s[0] * 256 + s[1]) as u16
}

/// The number that the first three bytes of `s` spell, the highest first.
#[verifier::opaque]
pub open spec fn spec_u24_from_be(s: Seq<u8>) -> u32 {
    (s[0] * 65536 + s[1] * 256 + s[2]) as u32
}

/// The number that the first four bytes of `s` spell, the highest first.
#[verifier::opaque]
pub open spec fn spec_u32_from_be(s: Seq<u8>) -> u32 {
    (s[0] * 16777216 + s[1] * 65536 + s[2] * 256 + s[3]) as u32
}

pub fn u16_to_be(v: u16) -> (r: [u8; 2])
    ensures
        r@ == spec_u16_be(v),
{
    let r = [(v / 256) as u8, (v % 256) as u8];
    assert(r@ =~= spec_u16_be(v));
    r
}

pub fn u32_to_be(v: u32) -> (r: [u8; 4])
    ensures
        r@ == spec_u32_be(v),
{
    let r = [
        (v / 16777216) as u8,
        ((v / 65536) % 256) as u8,
        ((v / 256) % 256) as u8,
        (v % 256) as u8,
    ];
    assert(r@ =~= spec_u32_be(v));
    r
}

pub fn u16_from_be(b: [u8; 2]) -> (r: u16)
    ensures
        r == spec_u16_from_be(b@),
{
    proof {
        reveal(spec_u16_from_be);
    }
    (b[0] as u16) * 256 + (b[1] as u16)
}

pub fn u32_from_be(b: [u8; 4]) -> (r: u32)
    ensures
        r == spec_u32_from_be(b@),
{
    proof {
        reveal(spec_u32_from_be);
    }
    (b[0] as u32) * 16777216 + (b[1] as u32) * 65536 + (b[2] as u32) * 256 + (b[3] as u32)
}

/// Reading back what `spec_u16_be` wrote gives the number again.
pub proof fn lemma_u16_be_round_trip(v: u16)
    ensures
        spec_u16_be(v).len() == 2,
        spec_u16_from_be(spec_u16_be(v)) == v,
{
    reveal(spec_u16_from_be);
}

/// Reading back what `spec_u32_be` wrote gives the number again.
pub proof fn lemma_u32_be_round_trip(v: u32)
    ensures
        spec_u32_be(v).len() == 4,
        spec_u32_from_be(spec_u32_be(v)) == v,
{
    reveal(spec_u32_from_be);
}

} // verus!

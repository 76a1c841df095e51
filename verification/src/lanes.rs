//! Eight 32-bit lanes at a time, by way of the `wide` crate.
//!
//! Each operation takes and gives arrays; lane `i` of the result depends on
//! lane `i` of the operands alone.
use vstd::prelude::*;

verus! {

/// How many values a lane can hold.
pub open spec fn lane_values() -> int {
    0x1_0000_0000
}

/// `wide::u32x8` shifted right: every lane by the same number of bits.
#[verifier::external_body]
pub(crate) fn shift_right(v: [u32; 8], n: u32) -> (r: [u32; 8])
    requires
        n < 32,
    ensures
        forall|i: int| 0 <= i < 8 ==> r@[i] == v@[i] >> n,
{
    (wide::u32x8::from(v) >> n).to_array()
}

/// `wide::u32x8` shifted left: every lane by the same number of bits; bits
/// beyond the lane are lost.
#[verifier::external_body]
pub(crate) fn shift_left(v: [u32; 8], n: u32) -> (r: [u32; 8])
    requires
        n < 32,
    ensures
        forall|i: int| 0 <= i < 8 ==> r@[i] == v@[i] << n,
{
    (wide::u32x8::from(v) << n).to_array()
}

/// `wide::u32x8` and, lane by lane.
#[verifier::external_body]
pub(crate) fn bits_and(a: [u32; 8], b: [u32; 8]) -> (r: [u32; 8])
    ensures
        forall|i: int| 0 <= i < 8 ==> r@[i] == a@[i] & b@[i],
{
    (wide::u32x8::from(a) & wide::u32x8::from(b)).to_array()
}

/// `wide::u32x8` or, lane by lane.
#[verifier::external_body]
pub(crate) fn bits_or(a: [u32; 8], b: [u32; 8]) -> (r: [u32; 8])
    ensures
        forall|i: int| 0 <= i < 8 ==> r@[i] == a@[i] | b@[i],
{
    (wide::u32x8::from(a) | wide::u32x8::from(b)).to_array()
}

/// `wide::u32x8` sum, lane by lane; it wraps around.
#[verifier::external_body]
pub(crate) fn plus(a: [u32; 8], b: [u32; 8]) -> (r: [u32; 8])
    ensures
        forall|i: int| 0 <= i < 8 ==> r@[i] == (a@[i] + b@[i]) % lane_values(),
{
    (wide::u32x8::from(a) + wide::u32x8::from(b)).to_array()
}

/// `wide::u32x8` difference, lane by lane; it wraps around.
#[verifier::external_body]
pub(crate) fn minus(a: [u32; 8], b: [u32; 8]) -> (r: [u32; 8])
    ensures
        forall|i: int| 0 <= i < 8 ==> r@[i] == (a@[i] - b@[i]) % lane_values(),
{
    (wide::u32x8::from(a) - wide::u32x8::from(b)).to_array()
}

/// `wide::u32x8` product, lane by lane; it wraps around.
#[verifier::external_body]
pub(crate) fn times(a: [u32; 8], b: [u32; 8]) -> (r: [u32; 8])
    ensures
        forall|i: int| 0 <= i < 8 ==> r@[i] == (a@[i] * b@[i]) % lane_values(),
{
    (wide::u32x8::from(a) * wide::u32x8::from(b)).to_array()
}

} // verus!

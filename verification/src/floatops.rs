use vstd::prelude::*;
use rustc_apfloat::Float;
use rustc_apfloat::Round;
use rustc_apfloat::ieee::Single;

verus! {

/// The IEEE 754 single precision difference of the values with the given
/// bit patterns, as a bit pattern.
pub uninterp spec fn sub_bits(a: u32, b: u32) -> u32;

/// The IEEE 754 single precision product of the values with the given bit
/// patterns, as a bit pattern.
pub uninterp spec fn mul_bits(a: u32, b: u32) -> u32;

/// The IEEE 754 single precision quotient of the values with the given bit
/// patterns, as a bit pattern.
pub uninterp spec fn div_bits(a: u32, b: u32) -> u32;

/// The IEEE 754 single precision value nearest to the given unsigned
/// integer, as a bit pattern.
pub uninterp spec fn f32_of_u32(x: u32) -> u32;

/// Relies on rustc_apfloat::ieee::Single::sub_r, rounding to nearest with
/// ties to even: single precision subtraction on bit patterns. The result
/// depends on the arguments alone.
#[verifier::external_body]
pub(crate) fn f32_sub(a: u32, b: u32) -> (r: u32)
    ensures
        r == sub_bits(a, b),
{
    let x = Single::from_bits(a as u128);
    let y = Single::from_bits(b as u128);
    x.sub_r(y, Round::NearestTiesToEven).value.to_bits() as u32
}

/// Relies on rustc_apfloat::ieee::Single::mul_r, rounding to nearest with
/// ties to even: single precision multiplication on bit patterns. The
/// result depends on the arguments alone.
#[verifier::external_body]
pub(crate) fn f32_mul(a: u32, b: u32) -> (r: u32)
    ensures
        r == mul_bits(a, b),
{
    let x = Single::from_bits(a as u128);
    let y = Single::from_bits(b as u128);
    x.mul_r(y, Round::NearestTiesToEven).value.to_bits() as u32
}

/// Relies on rustc_apfloat::ieee::Single::div_r, rounding to nearest with
/// ties to even: single precision division on bit patterns. The result
/// depends on the arguments alone.
#[verifier::external_body]
pub(crate) fn f32_div(a: u32, b: u32) -> (r: u32)
    ensures
        r == div_bits(a, b),
{
    let x = Single::from_bits(a as u128);
    let y = Single::from_bits(b as u128);
    x.div_r(y, Round::NearestTiesToEven).value.to_bits() as u32
}

/// Relies on rustc_apfloat::Float::from_u128, rounding to nearest with ties
/// to even: the nearest single precision value of an unsigned integer, as a
/// bit pattern. The result depends on the argument alone.
#[verifier::external_body]
pub(crate) fn u32_to_f32_bits(x: u32) -> (r: u32)
    ensures
        r == f32_of_u32(x),
{
    Single::from_u128(x as u128).value.to_bits() as u32
}

} // verus!

//! IEEE-754 binary32 arithmetic on bit patterns.
//!
//! Every real-valued quantity of the simulation is stored as the bit pattern
//! of an IEEE-754 binary32 number, held in a `u32`.  The arithmetic itself is
//! performed by `rustc_apfloat`, a software implementation of IEEE-754
//! binary32 (round to nearest, ties to even, as on ordinary hardware).  Each
//! operation's result is named by an uninterpreted spec function, and the
//! contracts of the simulation are exact relative to those names.

use vstd::prelude::*;

use rustc_apfloat::Float;
use rustc_apfloat::Round;
use rustc_apfloat::ieee::Single;

verus! {

/// Bit pattern of the binary32 number 1.0.
pub const ONE_BITS: u32 = 0x3f80_0000;

/// Bit pattern of the binary32 number 0.5.
pub const HALF_BITS: u32 = 0x3f00_0000;

/// The binary32 sum of the numbers with bit patterns `a` and `b`.
pub uninterp spec fn f32_add(a: u32, b: u32) -> u32;

/// The binary32 difference of the numbers with bit patterns `a` and `b`.
pub uninterp spec fn f32_sub(a: u32, b: u32) -> u32;

/// The binary32 product of the numbers with bit patterns `a` and `b`.
pub uninterp spec fn f32_mul(a: u32, b: u32) -> u32;

/// Whether the binary32 number with bit pattern `a` compares strictly below
/// the one with bit pattern `b`; false whenever either one is a NaN.
pub uninterp spec fn f32_lt(a: u32, b: u32) -> bool;

/// The binary32 value denoted by a piece of text, as a bit pattern, or
/// `None` where the text does not denote a number.
pub uninterp spec fn f32_of_text(s: Seq<u8>) -> Option<u32>;

/// Whether `bits` is the pattern of a binary32 NaN: exponent all ones and a
/// non-zero fraction.
pub open spec fn f32_is_nan(bits: u32) -> bool {
    (bits & 0x7f80_0000) == 0x7f80_0000 && (bits & 0x007f_ffff) != 0
}

/// The larger of two binary32 numbers given as bit patterns; when one of the
/// two is a NaN, the other one (IEEE-754 maxNum).
pub open spec fn f32_max(a: u32, b: u32) -> u32 {
    if f32_is_nan(a) {
        b
    } else if f32_is_nan(b) {
        a
    } else if f32_lt(a, b) {
        b
    } else {
        a
    }
}

/// Relies on `rustc_apfloat::Float::add_r` on `ieee::Single` for binary32
/// addition, rounding to nearest with ties to even; the result is a function
/// of the two bit patterns alone.
#[verifier::external_body]
pub(crate) fn add_bits(a: u32, b: u32) -> (r: u32)
    ensures
        r == f32_add(a, b),
{
    let x = Single::from_bits(a as u128);
    let y = Single::from_bits(b as u128);
    x.add_r(y, Round::NearestTiesToEven).value.to_bits() as u32
}

/// Relies on `rustc_apfloat::Float::sub_r` on `ieee::Single` for binary32
/// subtraction, rounding to nearest with ties to even; the result is a
/// function of the two bit patterns alone.
#[verifier::external_body]
pub(crate) fn sub_bits(a: u32, b: u32) -> (r: u32)
    ensures
        r == f32_sub(a, b),
{
    let x = Single::from_bits(a as u128);
    let y = Single::from_bits(b as u128);
    x.sub_r(y, Round::NearestTiesToEven).value.to_bits() as u32
}

/// Relies on `rustc_apfloat::Float::mul_r` on `ieee::Single` for binary32
/// multiplication, rounding to nearest with ties to even; the result is a
/// function of the two bit patterns alone.
#[verifier::external_body]
pub(crate) fn mul_bits(a: u32, b: u32) -> (r: u32)
    ensures
        r == f32_mul(a, b),
{
    let x = Single::from_bits(a as u128);
    let y = Single::from_bits(b as u128);
    x.mul_r(y, Round::NearestTiesToEven).value.to_bits() as u32
}

/// Relies on `PartialOrd` for `rustc_apfloat::ieee::Single`, the IEEE-754
/// comparison: strictly-below, false when either argument is a NaN; a
/// function of the two bit patterns alone.
#[verifier::external_body]
pub(crate) fn lt_bits(a: u32, b: u32) -> (r: bool)
    ensures
        r == f32_lt(a, b),
{
    Single::from_bits(a as u128) < Single::from_bits(b as u128)
}

/// Relies on `rustc_apfloat::Float::from_str` on `ieee::Single`, the
/// correctly rounded binary32 conversion from text (round to nearest, ties
/// to even); `None` exactly where the crate rejects the text, and the
/// outcome is a function of the bytes alone.
#[verifier::external_body]
pub(crate) fn parse_f32_bits(s: &[u8]) -> (r: Option<u32>)
    ensures
        r == f32_of_text(s@),
{
    match core::str::from_utf8(s) {
        Ok(text) => match text.parse::<Single>() {
            Ok(value) => Some(value.to_bits() as u32),
            Err(_) => None,
        },
        Err(_) => None,
    }
}

/// Whether `bits` is the pattern of a binary32 NaN.
pub fn is_nan_bits(bits: u32) -> (r: bool)
    ensures
        r == f32_is_nan(bits),
{
    (bits & 0x7f80_0000) == 0x7f80_0000 && (bits & 0x007f_ffff) != 0
}

/// The larger of two binary32 numbers given as bit patterns (IEEE-754
/// maxNum, the behaviour of the standard `max` on binary32).
pub fn max_bits(a: u32, b: u32) -> (r: u32)
    ensures
        r == f32_max(a, b),
{
    if is_nan_bits(a) {
        b
    } else if is_nan_bits(b) {
        a
    } else if lt_bits(a, b) {
        b
    } else {
        a
    }
}

} // verus!

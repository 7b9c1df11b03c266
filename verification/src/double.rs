//! IEEE-754 double-precision values, carried as their 64-bit encodings.
//!
//! The interpreter stores a float as the `u64` bit pattern of the IEEE-754
//! double it denotes.  All arithmetic on such values is delegated to the
//! `rustc_apfloat` software implementation of IEEE-754 (the same semantics as
//! the host's native double: round to nearest, ties to even), behind the
//! trusted wrappers below.  Each operation's result is given a name by an
//! uninterpreted spec function, since writing out IEEE-754 arithmetic as a
//! spec would neither be checkable nor illuminating.

use vstd::prelude::*;

use rustc_apfloat::Float;
use rustc_apfloat::ieee::Double;

verus! {

/// Bits of the positive infinity double.
pub const INF_BITS: u64 = 0x7FF0_0000_0000_0000;

/// Bits of the quiet NaN that decimal text `nan` denotes.
pub const NAN_BITS: u64 = 0x7FF8_0000_0000_0000;

/// The sign bit of a double encoding; flipping it negates the value.
pub const SIGN_BIT: u64 = 0x8000_0000_0000_0000;

pub uninterp spec fn double_add(a: u64, b: u64) -> u64;

pub uninterp spec fn double_sub(a: u64, b: u64) -> u64;

pub uninterp spec fn double_mul(a: u64, b: u64) -> u64;

pub uninterp spec fn double_div(a: u64, b: u64) -> u64;

pub uninterp spec fn double_rem(a: u64, b: u64) -> u64;

pub uninterp spec fn double_lt(a: u64, b: u64) -> bool;

pub uninterp spec fn double_gt(a: u64, b: u64) -> bool;

pub uninterp spec fn double_eq(a: u64, b: u64) -> bool;

pub uninterp spec fn double_of_i64(n: i64) -> u64;

pub uninterp spec fn double_to_i64(a: u64) -> i64;

pub uninterp spec fn double_of_decimal(s: Seq<char>) -> u64;

pub uninterp spec fn double_text(a: u64) -> Seq<char>;

/// Relies on rustc_apfloat's IEEE-754 addition (`Add` for `Double`, rounding
/// to nearest, ties to even).
#[verifier::external_body]
pub(crate) fn fadd(a: u64, b: u64) -> (r: u64)
    ensures
        r == double_add(a, b),
{
    (Double::from_bits(a as u128) + Double::from_bits(b as u128)).value.to_bits() as u64
}

/// Relies on rustc_apfloat's IEEE-754 subtraction (`Sub` for `Double`).
#[verifier::external_body]
pub(crate) fn fsub(a: u64, b: u64) -> (r: u64)
    ensures
        r == double_sub(a, b),
{
    (Double::from_bits(a as u128) - Double::from_bits(b as u128)).value.to_bits() as u64
}

/// Relies on rustc_apfloat's IEEE-754 multiplication (`Mul` for `Double`).
#[verifier::external_body]
pub(crate) fn fmul(a: u64, b: u64) -> (r: u64)
    ensures
        r == double_mul(a, b),
{
    (Double::from_bits(a as u128) * Double::from_bits(b as u128)).value.to_bits() as u64
}

/// Relies on rustc_apfloat's IEEE-754 division (`Div` for `Double`).
#[verifier::external_body]
pub(crate) fn fdiv(a: u64, b: u64) -> (r: u64)
    ensures
        r == double_div(a, b),
{
    (Double::from_bits(a as u128) / Double::from_bits(b as u128)).value.to_bits() as u64
}

/// Relies on rustc_apfloat's `Rem` for `Double`, the C `fmod` remainder that
/// the host's `%` on doubles computes.
#[verifier::external_body]
pub(crate) fn frem(a: u64, b: u64) -> (r: u64)
    ensures
        r == double_rem(a, b),
{
    (Double::from_bits(a as u128) % Double::from_bits(b as u128)).value.to_bits() as u64
}

/// Relies on rustc_apfloat's `PartialOrd` for `Double`, the IEEE-754 ordering
/// in which a NaN compares less than nothing.
#[verifier::external_body]
pub(crate) fn flt(a: u64, b: u64) -> (r: bool)
    ensures
        r == double_lt(a, b),
{
    Double::from_bits(a as u128) < Double::from_bits(b as u128)
}

/// Relies on rustc_apfloat's `PartialOrd` for `Double`.
#[verifier::external_body]
pub(crate) fn fgt(a: u64, b: u64) -> (r: bool)
    ensures
        r == double_gt(a, b),
{
    Double::from_bits(a as u128) > Double::from_bits(b as u128)
}

/// Relies on rustc_apfloat's `PartialEq` for `Double`, IEEE-754 equality:
/// a zero equals a zero of either sign, a NaN equals nothing.
#[verifier::external_body]
pub(crate) fn feq(a: u64, b: u64) -> (r: bool)
    ensures
        r == double_eq(a, b),
{
    Double::from_bits(a as u128) == Double::from_bits(b as u128)
}

/// Relies on rustc_apfloat's `from_i128` (round to nearest, ties to even),
/// the rounding the host applies when casting a 64-bit integer to a double.
#[verifier::external_body]
pub(crate) fn i64_to_double(n: i64) -> (r: u64)
    ensures
        r == double_of_i64(n),
{
    Double::from_i128(n as i128).value.to_bits() as u64
}

/// Relies on rustc_apfloat's `to_i128` (round toward zero), which documents
/// the saturating behaviour the host's double-to-integer cast has: NaN goes
/// to zero, values beyond either end go to the nearest representable bound.
#[verifier::external_body]
pub(crate) fn double_trunc_i64(a: u64) -> (r: i64)
    ensures
        r == double_to_i64(a),
{
    Double::from_bits(a as u128).to_i128(64).value as i64
}

/// Relies on rustc_apfloat's `FromStr` for `Double`, which parses a decimal
/// significand with an optional fraction and exponent, correctly rounded.
/// Only decimal text is admitted: on hex-prefixed input the library's
/// exponent conversion can panic.
#[verifier::external_body]
pub(crate) fn parse_double(s: &str) -> (r: u64)
    requires
        crate::words::is_decimal_body(crate::words::strip_sign(s@)),
    ensures
        r == double_of_decimal(s@),
{
    match s.parse::<Double>() {
        Ok(d) => d.to_bits() as u64,
        Err(_) => 0,
    }
}

/// Relies on rustc_apfloat's `Display` for `Double`, whose text depends on
/// the value alone.
#[verifier::external_body]
pub(crate) fn format_double(a: u64) -> (r: String)
    ensures
        r@ == double_text(a),
{
    format!("{}", Double::from_bits(a as u128))
}

} // verus!

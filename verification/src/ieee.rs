//! Rounded binary64 arithmetic on bit patterns.
//!
//! The four rounded operations are not re-derived here. Each is given a name
//! at the specification level and is computed by `rustc_apfloat`; the engine's
//! contracts are stated over those names.

use crate::decode::is_decimal_literal;
use rustc_apfloat::ieee::Double;
use rustc_apfloat::{Float, Round};
use vstd::prelude::*;

verus! {

/// The bit pattern of `a + b`, rounded to nearest with ties to even.
pub uninterp spec fn binary64_sum(a: u64, b: u64) -> u64;

/// The bit pattern of `a - b`, rounded to nearest with ties to even.
pub uninterp spec fn binary64_difference(a: u64, b: u64) -> u64;

/// The bit pattern of `a * b`, rounded to nearest with ties to even.
pub uninterp spec fn binary64_product(a: u64, b: u64) -> u64;

/// The bit pattern of `a / b`, rounded to nearest with ties to even.
pub uninterp spec fn binary64_quotient(a: u64, b: u64) -> u64;

/// The bit pattern of the binary64 value nearest to the decimal numeral
/// `text`, or `None` where the numeral is not accepted.
pub uninterp spec fn binary64_from_decimal(text: Seq<char>) -> Option<u64>;

/// Calls `rustc_apfloat::Float::from_str_r` on `ieee::Double` with
/// `Round::NearestTiesToEven`.
///
/// Trusted: on a decimal numeral the call returns, and whether the numeral
/// is accepted and the bit pattern it yields are a function of the text
/// alone, which is what giving the result the name `binary64_from_decimal`
/// claims. Which numerals are accepted is not stated.
#[verifier::external_body]
pub(crate) fn parse_decimal(text: &str) -> (r: Option<u64>)
    requires
        is_decimal_literal(text@),
    ensures
        r == binary64_from_decimal(text@),
{
    match Double::from_str_r(text, Round::NearestTiesToEven) {
        Ok(parsed) => Some(parsed.value.to_bits() as u64),
        Err(_) => None,
    }
}

/// Calls `rustc_apfloat::Float::add_r` on `ieee::Double` with
/// `Round::NearestTiesToEven`.
///
/// Trusted: the result is a function of the two bit patterns alone, which is
/// what giving it the name `binary64_sum` claims. Nothing else is assumed
/// about the value.
#[verifier::external_body]
pub(crate) fn rounded_sum(a: u64, b: u64) -> (r: u64)
    ensures
        r == binary64_sum(a, b),
{
    let x = Double::from_bits(a as u128);
    let y = Double::from_bits(b as u128);
    x.add_r(y, Round::NearestTiesToEven).value.to_bits() as u64
}

/// Calls `rustc_apfloat::Float::sub_r` on `ieee::Double` with
/// `Round::NearestTiesToEven`.
///
/// Trusted: the result is a function of the two bit patterns alone, which is
/// what giving it the name `binary64_difference` claims.
#[verifier::external_body]
pub(crate) fn rounded_difference(a: u64, b: u64) -> (r: u64)
    ensures
        r == binary64_difference(a, b),
{
    let x = Double::from_bits(a as u128);
    let y = Double::from_bits(b as u128);
    x.sub_r(y, Round::NearestTiesToEven).value.to_bits() as u64
}

/// Calls `rustc_apfloat::Float::mul_r` on `ieee::Double` with
/// `Round::NearestTiesToEven`.
///
/// Trusted: the result is a function of the two bit patterns alone, which is
/// what giving it the name `binary64_product` claims.
#[verifier::external_body]
pub(crate) fn rounded_product(a: u64, b: u64) -> (r: u64)
    ensures
        r == binary64_product(a, b),
{
    let x = Double::from_bits(a as u128);
    let y = Double::from_bits(b as u128);
    x.mul_r(y, Round::NearestTiesToEven).value.to_bits() as u64
}

/// Calls `rustc_apfloat::Float::div_r` on `ieee::Double` with
/// `Round::NearestTiesToEven`.
///
/// Trusted: the result is a function of the two bit patterns alone, which is
/// what giving it the name `binary64_quotient` claims. Division by zero is
/// not an error there: it yields an infinity or a NaN.
#[verifier::external_body]
pub(crate) fn rounded_quotient(a: u64, b: u64) -> (r: u64)
    ensures
        r == binary64_quotient(a, b),
{
    let x = Double::from_bits(a as u128);
    let y = Double::from_bits(b as u128);
    x.div_r(y, Round::NearestTiesToEven).value.to_bits() as u64
}

} // verus!

//! Floating-point operations over IEEE754 bit patterns.
//!
//! The library holds every 64-bit float as its bit pattern (`u64`), so the
//! arithmetic itself is delegated to `rustc_apfloat`, a software
//! implementation of IEEE754 binary64 with the same rounding (round to
//! nearest, ties to even) as the hardware operations. Each operation's result
//! is given a name; contracts elsewhere speak of those names.

use vstd::prelude::*;

use rustc_apfloat::ieee::Double;
use rustc_apfloat::Float;

use crate::decimal::decimal_shape;

verus! {

/// The IEEE754 sum of two doubles given as bit patterns.
pub uninterp spec fn float_sum(a: u64, b: u64) -> u64;

/// The double nearest to a 64-bit signed integer, as a bit pattern.
pub uninterp spec fn float_of_i64(i: i64) -> u64;

/// The integer a double denotes, when it is integral and fits 64 signed bits.
pub uninterp spec fn float_as_exact_i64(bits: u64) -> Option<i64>;

/// The double a decimal text denotes, correctly rounded, if the text is well
/// formed.
pub uninterp spec fn float_of_text(s: Seq<char>) -> Option<u64>;

/// The decimal rendering of a double.
pub uninterp spec fn float_text(bits: u64) -> Seq<char>;

/// The bit pattern of the quiet NaN that an unparsable text falls back to.
pub const NAN_BITS: u64 = 0x7ff8_0000_0000_0000;

/// Relies on rustc_apfloat's IEEE754 double addition over bit patterns.
#[verifier::external_body]
pub fn float_add(a: u64, b: u64) -> (r: u64)
    ensures
        r == float_sum(a, b),
{
    (Double::from_bits(a as u128) + Double::from_bits(b as u128)).value.to_bits() as u64
}

/// Relies on rustc_apfloat's integer-to-double conversion, rounding to
/// nearest. A double represents every integer of magnitude at most 2^53
/// exactly, so for those the conversion round-trips.
#[verifier::external_body]
pub fn float_from_i64(i: i64) -> (r: u64)
    ensures
        r == float_of_i64(i),
        -0x20_0000_0000_0000 <= i <= 0x20_0000_0000_0000 ==> float_as_exact_i64(r) == Some(i),
{
    Double::from_i128(i as i128).value.to_bits() as u64
}

/// Relies on rustc_apfloat's double-to-integer conversion: its status is
/// clean exactly when the double is integral and within the signed 64-bit
/// range, in which case the value is returned unrounded.
#[verifier::external_body]
pub fn float_to_exact_i64(bits: u64) -> (r: Option<i64>)
    ensures
        r == float_as_exact_i64(bits),
{
    let sa = Double::from_bits(bits as u128).to_i128(64);
    match sa.status {
        rustc_apfloat::Status::OK => Some(sa.value as i64),
        _ => None,
    }
}

/// Relies on rustc_apfloat's decimal parsing for doubles, which is correctly
/// rounded (to nearest, ties to even) like the standard library's parser, and
/// accepts every text made of an optional sign, digits, an optional fraction
/// with digits, and an optional exponent with digits.
#[verifier::external_body]
pub fn float_parse(s: &str) -> (r: Option<u64>)
    ensures
        r == float_of_text(s@),
        decimal_shape(s@) ==> r is Some,
{
    match <Double as core::str::FromStr>::from_str(s) {
        Ok(d) => Some(d.to_bits() as u64),
        Err(_) => None,
    }
}

/// Relies on rustc_apfloat's decimal rendering of doubles.
#[verifier::external_body]
pub fn float_to_text(bits: u64) -> (r: String)
    ensures
        r@ == float_text(bits),
{
    format!("{}", Double::from_bits(bits as u128))
}

} // verus!

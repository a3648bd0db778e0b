//! The numeric domain of the language.
//!
//! Verus cannot reason about machine floating point, so the crate carries
//! every numeric value as the bit pattern of an IEEE-754 binary64 number,
//! stored in a `u64`.  The conversions and the four arithmetic operations
//! are performed by `rustc_apfloat`, a software implementation of IEEE-754
//! arithmetic that works directly on bit patterns; each call sits behind a
//! trusted wrapper whose result is named by an uninterpreted spec function,
//! since the value of an operation is a function of the operand bit
//! patterns alone.

use rustc_apfloat::Float;
use vstd::prelude::*;

verus! {

/// The bit pattern of the IEEE-754 binary64 number closest to the decimal
/// numeral `s` (round to nearest, ties to even).
pub uninterp spec fn literal_bits_of(s: Seq<char>) -> u64;

/// The bit pattern of the IEEE-754 binary64 sum of the numbers encoded by
/// `a` and `b`.
pub uninterp spec fn add_bits_of(a: u64, b: u64) -> u64;

/// The bit pattern of the IEEE-754 binary64 difference of the numbers
/// encoded by `a` and `b`.
pub uninterp spec fn sub_bits_of(a: u64, b: u64) -> u64;

/// The bit pattern of the IEEE-754 binary64 product of the numbers encoded
/// by `a` and `b`.
pub uninterp spec fn mul_bits_of(a: u64, b: u64) -> u64;

/// The bit pattern of the IEEE-754 binary64 quotient of the numbers
/// encoded by `a` and `b`.
pub uninterp spec fn div_bits_of(a: u64, b: u64) -> u64;

/// The decimal text that `rustc_apfloat` renders for the number encoded by
/// `b`.
pub uninterp spec fn render_of(b: u64) -> Seq<char>;

/// True when the bit pattern encodes zero (of either sign): a zero-valued
/// right operand of a division is a runtime error in the language.
pub open spec fn is_zero_bits(b: u64) -> bool {
    b == 0u64 || b == 0x8000_0000_0000_0000u64
}

/// Runtime test matching `is_zero_bits`.
pub fn is_zero_bits_exec(b: u64) -> (r: bool)
    ensures
        r == is_zero_bits(b),
{
    b == 0u64 || b == 0x8000_0000_0000_0000u64
}

/// An ASCII decimal digit.
pub open spec fn is_digit_char(c: char) -> bool {
    '0' <= c && c <= '9'
}

/// A character that may stand in a number lexeme: a digit or a decimal
/// point.
pub open spec fn is_number_char(c: char) -> bool {
    is_digit_char(c) || c == '.'
}

/// How many decimal points a character sequence holds.
pub open spec fn dot_count(s: Seq<char>) -> nat
    decreases s.len(),
{
    if s.len() == 0 {
        0
    } else {
        dot_count(s.drop_last()) + if s.last() == '.' { 1nat } else { 0nat }
    }
}

/// A number lexeme that the decimal-to-binary64 conversion accepts: a
/// non-empty run of digits and decimal points that starts with a digit and
/// holds at most one decimal point.
pub open spec fn valid_number_lexeme(s: Seq<char>) -> bool {
    &&& s.len() > 0
    &&& is_digit_char(s[0])
    &&& (forall|i: int| 0 <= i < s.len() ==> is_number_char(#[trigger] s[i]))
    &&& dot_count(s) <= 1
}

/// Relies on `rustc_apfloat::ieee::Double::from_str`: on a non-empty run
/// of digits with at most one decimal point it performs the IEEE-754
/// correctly rounded decimal-to-binary64 conversion and cannot fail, and
/// its result depends on the text alone.
#[verifier::external_body]
pub(crate) fn literal_to_bits(s: &str) -> (r: u64)
    requires
        valid_number_lexeme(s@),
    ensures
        r == literal_bits_of(s@),
{
    match s.parse::<rustc_apfloat::ieee::Double>() {
        Ok(d) => d.to_bits() as u64,
        Err(_) => 0,
    }
}

/// Relies on the `+` operator of `rustc_apfloat::ieee::Double`: the
/// IEEE-754 binary64 sum, rounded to nearest even, computed from the
/// operand bit patterns alone.
#[verifier::external_body]
pub(crate) fn add_bits(a: u64, b: u64) -> (r: u64)
    ensures
        r == add_bits_of(a, b),
{
    let x = rustc_apfloat::ieee::Double::from_bits(a as u128);
    let y = rustc_apfloat::ieee::Double::from_bits(b as u128);
    (x + y).value.to_bits() as u64
}

/// Relies on the `-` operator of `rustc_apfloat::ieee::Double`: the
/// IEEE-754 binary64 difference, rounded to nearest even, computed from
/// the operand bit patterns alone.
#[verifier::external_body]
pub(crate) fn sub_bits(a: u64, b: u64) -> (r: u64)
    ensures
        r == sub_bits_of(a, b),
{
    let x = rustc_apfloat::ieee::Double::from_bits(a as u128);
    let y = rustc_apfloat::ieee::Double::from_bits(b as u128);
    (x - y).value.to_bits() as u64
}

/// Relies on the `*` operator of `rustc_apfloat::ieee::Double`: the
/// IEEE-754 binary64 product, rounded to nearest even, computed from the
/// operand bit patterns alone.
#[verifier::external_body]
pub(crate) fn mul_bits(a: u64, b: u64) -> (r: u64)
    ensures
        r == mul_bits_of(a, b),
{
    let x = rustc_apfloat::ieee::Double::from_bits(a as u128);
    let y = rustc_apfloat::ieee::Double::from_bits(b as u128);
    (x * y).value.to_bits() as u64
}

/// Relies on the `/` operator of `rustc_apfloat::ieee::Double`: the
/// IEEE-754 binary64 quotient, rounded to nearest even, computed from the
/// operand bit patterns alone; it never panics, a zero divisor yields an
/// infinity or a NaN.
#[verifier::external_body]
pub(crate) fn div_bits(a: u64, b: u64) -> (r: u64)
    ensures
        r == div_bits_of(a, b),
{
    let x = rustc_apfloat::ieee::Double::from_bits(a as u128);
    let y = rustc_apfloat::ieee::Double::from_bits(b as u128);
    (x / y).value.to_bits() as u64
}

/// Relies on the `Display` impl of `rustc_apfloat::ieee::Double`: a
/// decimal rendering of the encoded number, a function of the bit pattern
/// alone.
#[verifier::external_body]
pub(crate) fn render_bits(b: u64) -> (r: String)
    ensures
        r@ == render_of(b),
{
    format!("{}", rustc_apfloat::ieee::Double::from_bits(b as u128))
}

} // verus!

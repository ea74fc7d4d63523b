//! Floating-point support.
//!
//! The language's float values are carried everywhere as their 64-bit IEEE 754
//! bit patterns, which keeps the data model within plain integers.  The
//! arithmetic itself is done by the `rustc_apfloat` crate, a software
//! implementation of IEEE 754 binary64 whose interface works on bit patterns.
//! Each operation below is named by an uninterpreted function: the result is a
//! function of the argument bits alone, and the contracts of the interpreter
//! speak of those names exactly.

use vstd::prelude::*;

verus! {

use rustc_apfloat::Float;

/// The bits of the IEEE 754 binary64 sum of `a` and `b` (ties to even).
pub uninterp spec fn float_add(a: u64, b: u64) -> u64;

/// The bits of the IEEE 754 binary64 difference of `a` and `b`.
pub uninterp spec fn float_sub(a: u64, b: u64) -> u64;

/// The bits of the IEEE 754 binary64 product of `a` and `b`.
pub uninterp spec fn float_mul(a: u64, b: u64) -> u64;

/// The bits of the IEEE 754 binary64 quotient of `a` and `b`.
pub uninterp spec fn float_div(a: u64, b: u64) -> u64;

/// IEEE 754 equality on the values the bits denote (not bit equality).
pub uninterp spec fn float_eq(a: u64, b: u64) -> bool;

/// IEEE 754 "less than" on the values the bits denote.
pub uninterp spec fn float_lt(a: u64, b: u64) -> bool;

/// IEEE 754 "greater than" on the values the bits denote.
pub uninterp spec fn float_gt(a: u64, b: u64) -> bool;

/// The bits of the binary64 value nearest to the integer `x`.
pub uninterp spec fn float_of_int(x: i64) -> u64;

/// The value the bits denote, truncated toward zero to a 64-bit integer,
/// saturating at the range ends; zero for a NaN.
pub uninterp spec fn float_trunc(a: u64) -> i64;

/// The bits of the binary64 value a decimal (or hexadecimal) literal denotes,
/// or `None` when the text is not a float literal.
pub uninterp spec fn float_parse(s: Seq<char>) -> Option<u64>;

/// The decimal rendering of the value the bits denote.
pub uninterp spec fn float_display(a: u64) -> Seq<char>;

/// Relies on `rustc_apfloat::ieee::Double`'s `Add` impl: IEEE 754 binary64
/// addition, rounding to nearest, ties to even.
#[verifier::external_body]
pub(crate) fn float_add_exec(a: u64, b: u64) -> (r: u64)
    ensures
        r == float_add(a, b),
{
    let x = rustc_apfloat::ieee::Double::from_bits(a as u128);
    let y = rustc_apfloat::ieee::Double::from_bits(b as u128);
    (x + y).value.to_bits() as u64
}

/// Relies on `rustc_apfloat::ieee::Double`'s `Sub` impl: IEEE 754 binary64
/// subtraction, rounding to nearest, ties to even.
#[verifier::external_body]
pub(crate) fn float_sub_exec(a: u64, b: u64) -> (r: u64)
    ensures
        r == float_sub(a, b),
{
    let x = rustc_apfloat::ieee::Double::from_bits(a as u128);
    let y = rustc_apfloat::ieee::Double::from_bits(b as u128);
    (x - y).value.to_bits() as u64
}

/// Relies on `rustc_apfloat::ieee::Double`'s `Mul` impl: IEEE 754 binary64
/// multiplication, rounding to nearest, ties to even.
#[verifier::external_body]
pub(crate) fn float_mul_exec(a: u64, b: u64) -> (r: u64)
    ensures
        r == float_mul(a, b),
{
    let x = rustc_apfloat::ieee::Double::from_bits(a as u128);
    let y = rustc_apfloat::ieee::Double::from_bits(b as u128);
    (x * y).value.to_bits() as u64
}

/// Relies on `rustc_apfloat::ieee::Double`'s `Div` impl: IEEE 754 binary64
/// division, rounding to nearest, ties to even.
#[verifier::external_body]
pub(crate) fn float_div_exec(a: u64, b: u64) -> (r: u64)
    ensures
        r == float_div(a, b),
{
    let x = rustc_apfloat::ieee::Double::from_bits(a as u128);
    let y = rustc_apfloat::ieee::Double::from_bits(b as u128);
    (x / y).value.to_bits() as u64
}

/// Relies on `PartialEq for rustc_apfloat::ieee::IeeeFloat`: IEEE 754
/// equality, under which a NaN equals nothing and -0 equals +0.
#[verifier::external_body]
pub(crate) fn float_eq_exec(a: u64, b: u64) -> (r: bool)
    ensures
        r == float_eq(a, b),
{
    let x = rustc_apfloat::ieee::Double::from_bits(a as u128);
    let y = rustc_apfloat::ieee::Double::from_bits(b as u128);
    x == y
}

/// Relies on `PartialOrd for rustc_apfloat::ieee::IeeeFloat`: IEEE 754
/// ordering, under which a NaN compares with nothing.
#[verifier::external_body]
pub(crate) fn float_lt_exec(a: u64, b: u64) -> (r: bool)
    ensures
        r == float_lt(a, b),
{
    let x = rustc_apfloat::ieee::Double::from_bits(a as u128);
    let y = rustc_apfloat::ieee::Double::from_bits(b as u128);
    x < y
}

/// Relies on `PartialOrd for rustc_apfloat::ieee::IeeeFloat`: IEEE 754
/// ordering, under which a NaN compares with nothing.
#[verifier::external_body]
pub(crate) fn float_gt_exec(a: u64, b: u64) -> (r: bool)
    ensures
        r == float_gt(a, b),
{
    let x = rustc_apfloat::ieee::Double::from_bits(a as u128);
    let y = rustc_apfloat::ieee::Double::from_bits(b as u128);
    x > y
}

/// Relies on `rustc_apfloat::Float::from_i128`: conversion of an integer to
/// the nearest binary64 value, ties to even.
#[verifier::external_body]
pub(crate) fn float_of_int_exec(x: i64) -> (r: u64)
    ensures
        r == float_of_int(x),
{
    rustc_apfloat::ieee::Double::from_i128(x as i128).value.to_bits() as u64
}

/// Relies on `rustc_apfloat::Float::to_i128`: conversion toward zero to a
/// 64-bit integer, which saturates at the range ends and takes a NaN to zero.
#[verifier::external_body]
pub(crate) fn float_trunc_exec(a: u64) -> (r: i64)
    ensures
        r == float_trunc(a),
{
    rustc_apfloat::ieee::Double::from_bits(a as u128).to_i128(64).value as i64
}

/// Relies on `FromStr for rustc_apfloat::ieee::IeeeFloat`: parses a float
/// literal to the nearest binary64 value, and rejects anything else.
#[verifier::external_body]
pub(crate) fn float_parse_exec(s: &String) -> (r: Option<u64>)
    ensures
        r == float_parse(s@),
{
    match s.as_str().parse::<rustc_apfloat::ieee::Double>() {
        Ok(d) => Some(d.to_bits() as u64),
        Err(_) => None,
    }
}

/// Relies on `Display for rustc_apfloat::ieee::IeeeFloat`: the decimal
/// rendering of the value, which depends on the bits alone.
#[verifier::external_body]
pub(crate) fn float_display_exec(a: u64) -> (r: String)
    ensures
        r@ == float_display(a),
{
    format!("{}", rustc_apfloat::ieee::Double::from_bits(a as u128))
}

} // verus!

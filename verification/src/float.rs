//! Double-precision floating-point arithmetic over IEEE-754 bit patterns.
//!
//! The language's float values are carried through the compiler and the
//! virtual machine as their 64-bit IEEE-754 encodings, so that the
//! surrounding logic can be verified while the arithmetic itself is done by
//! `rustc_apfloat`'s software implementation of IEEE-754 double arithmetic.
//! Every operation here is a deterministic, machine-independent function of
//! the operand encodings; each is given an uninterpreted name so that
//! callers' contracts can pin results down exactly without restating
//! IEEE-754.

use vstd::prelude::*;

verus! {

/// The IEEE-754 sum of the doubles encoded by `a` and `b`, as an encoding.
pub uninterp spec fn f64_add_bits(a: u64, b: u64) -> u64;

/// The IEEE-754 difference of the doubles encoded by `a` and `b`.
pub uninterp spec fn f64_sub_bits(a: u64, b: u64) -> u64;

/// The IEEE-754 product of the doubles encoded by `a` and `b`.
pub uninterp spec fn f64_mul_bits(a: u64, b: u64) -> u64;

/// The IEEE-754 quotient of the doubles encoded by `a` and `b`.
pub uninterp spec fn f64_div_bits(a: u64, b: u64) -> u64;

/// Whether the doubles encoded by `a` and `b` compare equal under IEEE-754
/// (NaN equals nothing; positive and negative zero are equal).
pub uninterp spec fn f64_eq_bits(a: u64, b: u64) -> bool;

/// Whether the double encoded by `a` is less than the one encoded by `b`
/// under IEEE-754 (false whenever either is NaN).
pub uninterp spec fn f64_lt_bits(a: u64, b: u64) -> bool;

/// Whether the double encoded by `a` is less than or equal to the one
/// encoded by `b` under IEEE-754 (false whenever either is NaN).
pub uninterp spec fn f64_le_bits(a: u64, b: u64) -> bool;

/// The encoding of the double nearest to the integer `i` (exact for every
/// `i32`, whose magnitude is below 2^53).
pub uninterp spec fn f64_of_i32(i: i32) -> u64;

/// The double encoded by `a`, truncated toward zero and saturated to the
/// `i32` range; NaN becomes 0.
pub uninterp spec fn f64_to_i32(a: u64) -> i32;

/// The result of parsing `s` as a decimal floating-point literal, correctly
/// rounded to a double: `None` when `s` is not a well-formed literal.
pub uninterp spec fn f64_of_decimal(s: Seq<char>) -> Option<u64>;

/// Relies on `rustc_apfloat::ieee::Double`'s `Add`: IEEE-754 addition (round
/// to nearest, ties to even), a pure function of the two encodings.
#[verifier::external_body]
pub fn float_add(a: u64, b: u64) -> (r: u64)
    ensures
        r == f64_add_bits(a, b),
{
    let x = <rustc_apfloat::ieee::Double as rustc_apfloat::Float>::from_bits(a as u128);
    let y = <rustc_apfloat::ieee::Double as rustc_apfloat::Float>::from_bits(b as u128);
    rustc_apfloat::Float::to_bits((x + y).value) as u64
}

/// Relies on `rustc_apfloat::ieee::Double`'s `Sub`: IEEE-754 subtraction
/// (round to nearest, ties to even), a pure function of the two encodings.
#[verifier::external_body]
pub fn float_sub(a: u64, b: u64) -> (r: u64)
    ensures
        r == f64_sub_bits(a, b),
{
    let x = <rustc_apfloat::ieee::Double as rustc_apfloat::Float>::from_bits(a as u128);
    let y = <rustc_apfloat::ieee::Double as rustc_apfloat::Float>::from_bits(b as u128);
    rustc_apfloat::Float::to_bits((x - y).value) as u64
}

/// Relies on `rustc_apfloat::ieee::Double`'s `Mul`: IEEE-754 multiplication
/// (round to nearest, ties to even), a pure function of the two encodings.
#[verifier::external_body]
pub fn float_mul(a: u64, b: u64) -> (r: u64)
    ensures
        r == f64_mul_bits(a, b),
{
    let x = <rustc_apfloat::ieee::Double as rustc_apfloat::Float>::from_bits(a as u128);
    let y = <rustc_apfloat::ieee::Double as rustc_apfloat::Float>::from_bits(b as u128);
    rustc_apfloat::Float::to_bits((x * y).value) as u64
}

/// Relies on `rustc_apfloat::ieee::Double`'s `Div`: IEEE-754 division (round
/// to nearest, ties to even), a pure function of the two encodings.
#[verifier::external_body]
pub fn float_div(a: u64, b: u64) -> (r: u64)
    ensures
        r == f64_div_bits(a, b),
{
    let x = <rustc_apfloat::ieee::Double as rustc_apfloat::Float>::from_bits(a as u128);
    let y = <rustc_apfloat::ieee::Double as rustc_apfloat::Float>::from_bits(b as u128);
    rustc_apfloat::Float::to_bits((x / y).value) as u64
}

/// Relies on `rustc_apfloat::ieee::Double`'s `PartialEq`: IEEE-754 equality,
/// a pure function of the two encodings.
#[verifier::external_body]
pub fn float_eq(a: u64, b: u64) -> (r: bool)
    ensures
        r == f64_eq_bits(a, b),
{
    let x = <rustc_apfloat::ieee::Double as rustc_apfloat::Float>::from_bits(a as u128);
    let y = <rustc_apfloat::ieee::Double as rustc_apfloat::Float>::from_bits(b as u128);
    x == y
}

/// Relies on `rustc_apfloat::ieee::Double`'s `PartialOrd`: the IEEE-754
/// less-than comparison, a pure function of the two encodings.
#[verifier::external_body]
pub fn float_lt(a: u64, b: u64) -> (r: bool)
    ensures
        r == f64_lt_bits(a, b),
{
    let x = <rustc_apfloat::ieee::Double as rustc_apfloat::Float>::from_bits(a as u128);
    let y = <rustc_apfloat::ieee::Double as rustc_apfloat::Float>::from_bits(b as u128);
    x < y
}

/// Relies on `rustc_apfloat::ieee::Double`'s `PartialOrd`: the IEEE-754
/// less-than-or-equal comparison, a pure function of the two encodings.
#[verifier::external_body]
pub fn float_le(a: u64, b: u64) -> (r: bool)
    ensures
        r == f64_le_bits(a, b),
{
    let x = <rustc_apfloat::ieee::Double as rustc_apfloat::Float>::from_bits(a as u128);
    let y = <rustc_apfloat::ieee::Double as rustc_apfloat::Float>::from_bits(b as u128);
    x <= y
}

/// Relies on `rustc_apfloat::Float::from_i128`: conversion of an integer to
/// the nearest double, a pure function of the integer.
#[verifier::external_body]
pub fn float_of_i32(i: i32) -> (r: u64)
    ensures
        r == f64_of_i32(i),
{
    let x = <rustc_apfloat::ieee::Double as rustc_apfloat::Float>::from_i128(i as i128).value;
    rustc_apfloat::Float::to_bits(x) as u64
}

/// Relies on `rustc_apfloat::Float::to_i128`: conversion of a double to an
/// integer, truncating toward zero, saturating out-of-range values to the
/// nearest representable `i32` and mapping NaN to zero — a pure function of
/// the encoding.
#[verifier::external_body]
pub fn float_to_i32(a: u64) -> (r: i32)
    ensures
        r == f64_to_i32(a),
{
    let x = <rustc_apfloat::ieee::Double as rustc_apfloat::Float>::from_bits(a as u128);
    rustc_apfloat::Float::to_i128(x, 32).value as i32
}

/// Holds of character sequences of the shape `digits ["." digits*]
/// [("e"|"E") ["+"|"-"] digits*]` — the decimal literals that
/// `rustc_apfloat`'s parser is documented to accept (an empty exponent-digit
/// run is read as exponent zero).
pub open spec fn decimal_float_chars(s: Seq<char>) -> bool {
    exists|d: int, e: int|
        {
            &&& 1 <= d <= e <= s.len()
            &&& (forall|k: int| 0 <= k < d ==> crate::token::is_digit_char(#[trigger] s[k]))
            &&& (d == e || (s[d] == '.' && forall|k: int|
                d < k < e ==> crate::token::is_digit_char(#[trigger] s[k])))
            &&& (e == s.len() || ((s[e] == 'e' || s[e] == 'E') && {
                let f = if e + 1 < s.len() && (s[e + 1] == '+' || s[e + 1] == '-') {
                    e + 2
                } else {
                    e + 1
                };
                forall|k: int| f <= k < s.len() ==> crate::token::is_digit_char(#[trigger] s[k])
            }))
        }
}

/// Relies on `rustc_apfloat::ieee::Double`'s `FromStr`: correctly rounded
/// decimal-to-double parsing, a pure function of the character sequence;
/// its source accepts every sequence of the shape `decimal_float_chars`.
#[verifier::external_body]
pub fn float_parse(chars: &Vec<char>) -> (r: Option<u64>)
    ensures
        r == f64_of_decimal(chars@),
        decimal_float_chars(chars@) ==> r is Some,
{
    let s: String = chars.iter().collect();
    match <rustc_apfloat::ieee::Double as core::str::FromStr>::from_str(&s) {
        Ok(x) => Some(rustc_apfloat::Float::to_bits(x) as u64),
        Err(_) => None,
    }
}

} // verus!

//! Double-precision values, carried as their IEEE-754 bit patterns.
//!
//! The verified code never manipulates a floating-point value directly: a
//! number is a `u64` holding the bit pattern of the IEEE-754 double it
//! denotes.  The arithmetic on those patterns, the reading of a number
//! literal and the rendering of a value back to text are done by
//! `rustc_apfloat`, a faithful software implementation of IEEE-754 binary64
//! (round to nearest, ties to even), behind the trusted wrappers below.

use crate::parser::is_number_literal;
use rustc_apfloat::ieee::Double;
use rustc_apfloat::Float;
use vstd::prelude::*;

verus! {

/// Bit pattern of the IEEE-754 double sum of the doubles denoted by `a` and `b`.
pub uninterp spec fn add_bits(a: u64, b: u64) -> u64;

/// Bit pattern of the IEEE-754 double difference of the doubles denoted by `a` and `b`.
pub uninterp spec fn sub_bits(a: u64, b: u64) -> u64;

/// Bit pattern of the IEEE-754 double product of the doubles denoted by `a` and `b`.
pub uninterp spec fn mul_bits(a: u64, b: u64) -> u64;

/// Bit pattern of the IEEE-754 double quotient of the doubles denoted by `a` and `b`.
pub uninterp spec fn div_bits(a: u64, b: u64) -> u64;

/// Bit pattern of the negation of the double denoted by `a`.
pub uninterp spec fn neg_bits(a: u64) -> u64;

/// Bit pattern denoted by a number literal, read with round to nearest, ties to even.
pub uninterp spec fn number_value(s: Seq<char>) -> u64;

/// Decimal rendering of the double denoted by `bits`.
pub uninterp spec fn number_text(bits: u64) -> Seq<char>;

/// Bit patterns of the non-negative finite doubles: sign bit clear and the
/// exponent field not all ones.  Exactly these render as a plain number
/// literal that reads back to the same pattern.
pub open spec fn is_renderable(bits: u64) -> bool {
    bits < 0x7FF0_0000_0000_0000
}

/// Relies on `rustc_apfloat`: `Add for IeeeFloat` rounds to nearest, ties to
/// even, and `Float::from_bits` / `Float::to_bits` convert exactly.
#[verifier::external_body]
pub(crate) fn add_bits_exec(a: u64, b: u64) -> (r: u64)
    ensures
        r == add_bits(a, b),
{
    let x = Double::from_bits(a as u128);
    let y = Double::from_bits(b as u128);
    (x + y).value.to_bits() as u64
}

/// Relies on `rustc_apfloat`: `Sub for IeeeFloat` rounds to nearest, ties to even.
#[verifier::external_body]
pub(crate) fn sub_bits_exec(a: u64, b: u64) -> (r: u64)
    ensures
        r == sub_bits(a, b),
{
    let x = Double::from_bits(a as u128);
    let y = Double::from_bits(b as u128);
    (x - y).value.to_bits() as u64
}

/// Relies on `rustc_apfloat`: `Mul for IeeeFloat` rounds to nearest, ties to even.
#[verifier::external_body]
pub(crate) fn mul_bits_exec(a: u64, b: u64) -> (r: u64)
    ensures
        r == mul_bits(a, b),
{
    let x = Double::from_bits(a as u128);
    let y = Double::from_bits(b as u128);
    (x * y).value.to_bits() as u64
}

/// Relies on `rustc_apfloat`: `Div for IeeeFloat` rounds to nearest, ties to
/// even; division by zero yields an infinity or NaN per IEEE-754, never a panic.
#[verifier::external_body]
pub(crate) fn div_bits_exec(a: u64, b: u64) -> (r: u64)
    ensures
        r == div_bits(a, b),
{
    let x = Double::from_bits(a as u128);
    let y = Double::from_bits(b as u128);
    (x / y).value.to_bits() as u64
}

/// Relies on `rustc_apfloat`: `Neg for IeeeFloat` flips the sign bit exactly.
#[verifier::external_body]
pub(crate) fn neg_bits_exec(a: u64) -> (r: u64)
    ensures
        r == neg_bits(a),
{
    (-Double::from_bits(a as u128)).to_bits() as u64
}

/// Relies on `rustc_apfloat`: `FromStr for IeeeFloat` reads a decimal literal
/// of the shape `digits [. digits] [(e|E) [sign] digits]`, correctly rounded
/// to nearest, ties to even.  `number_value` names what this computes: the
/// bit pattern read from the characters, or zero where they are no literal.
#[verifier::external_body]
pub(crate) fn number_value_exec(s: &Vec<char>, start: usize, end: usize) -> (r: u64)
    requires
        start <= end <= s@.len(),
    ensures
        r == number_value(s@.subrange(start as int, end as int)),
{
    let text: String = s[start..end].iter().collect();
    match text.parse::<Double>() {
        Ok(d) => d.to_bits() as u64,
        Err(_) => 0,
    }
}

/// Relies on `rustc_apfloat`: `Display for IeeeFloat` prints enough digits to
/// read back to the same value (Steele & White), and for a non-negative
/// finite value its output has the shape `digits [. digits] [E sign digits]`,
/// which `FromStr` reads back to the same bit pattern.
#[verifier::external_body]
pub(crate) fn number_text_exec(bits: u64) -> (r: Vec<char>)
    ensures
        r@ == number_text(bits),
        is_renderable(bits) ==> is_number_literal(r@) && number_value(r@) == bits,
{
    let d = Double::from_bits(bits as u128);
    format!("{}", d).chars().collect()
}

/// Relies on `str::chars`: the characters of the string, in order.
#[verifier::external_body]
pub(crate) fn chars_of(s: &str) -> (r: Vec<char>)
    ensures
        r@ == s@,
{
    s.chars().collect()
}

/// Relies on `FromIterator for String`: the string holding exactly the given
/// characters, in order.
#[verifier::external_body]
pub(crate) fn string_from_chars(v: &Vec<char>) -> (r: String)
    ensures
        r@ == v@,
{
    v.iter().collect()
}

} // verus!

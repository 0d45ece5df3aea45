//! The scalar model: IEEE-754 binary64 values carried as their bit patterns.
//!
//! A scalar is a `u64` holding the bits of a double-precision value. The
//! rounded arithmetic on such values is pure — the result of each operation
//! is a function of the operands' bit patterns alone, on every machine — but
//! it takes the whole of IEEE 754 to write down. Each operation therefore
//! gets an uninterpreted name (`add_bits`, `mul_bits`, ...), and a trusted
//! wrapper whose body calls `rustc_apfloat`'s software implementation of the
//! same arithmetic promises that it returns exactly the named value. All
//! contracts of this library speak of the names; nothing else is assumed of
//! the arithmetic.
use vstd::prelude::*;

use rustc_apfloat::Float;
use rustc_apfloat::ieee::Double;

verus! {

/// Bit pattern of the double-precision value zero (+0.0).
pub const ZERO_BITS: u64 = 0;

/// Bit pattern of the double-precision value one (1.0).
pub const ONE_BITS: u64 = 0x3FF0_0000_0000_0000;

/// The IEEE-754 round-to-nearest-even sum of the doubles with bit patterns
/// `a` and `b`, as a bit pattern.
pub uninterp spec fn add_bits(a: u64, b: u64) -> u64;

/// The IEEE-754 round-to-nearest-even difference `a - b` of the doubles with
/// bit patterns `a` and `b`, as a bit pattern.
pub uninterp spec fn sub_bits(a: u64, b: u64) -> u64;

/// The IEEE-754 round-to-nearest-even product of the doubles with bit
/// patterns `a` and `b`, as a bit pattern.
pub uninterp spec fn mul_bits(a: u64, b: u64) -> u64;

/// The IEEE-754 round-to-nearest-even quotient `a / b` of the doubles with
/// bit patterns `a` and `b`, as a bit pattern.
pub uninterp spec fn div_bits(a: u64, b: u64) -> u64;

/// The bit pattern of the double nearest to the unsigned integer `n`
/// (round to nearest, ties to even).
pub uninterp spec fn from_u32_bits(n: u32) -> u64;

/// Whether the double with bit pattern `a` compares strictly greater than
/// zero; false when `a` is a NaN, a zero, or negative.
pub uninterp spec fn is_pos_bits(a: u64) -> bool;

/// Relies on `rustc_apfloat::ieee::Double`'s `Add` (round to nearest, ties
/// to even): the rounded sum is a function of the operands' bit patterns
/// alone.
#[verifier::external_body]
pub(crate) fn scalar_add(a: u64, b: u64) -> (r: u64)
    ensures
        r == add_bits(a, b),
{
    (Double::from_bits(a as u128) + Double::from_bits(b as u128)).value.to_bits() as u64
}

/// Relies on `rustc_apfloat::ieee::Double`'s `Sub` (round to nearest, ties
/// to even): the rounded difference is a function of the operands' bit
/// patterns alone.
#[verifier::external_body]
pub(crate) fn scalar_sub(a: u64, b: u64) -> (r: u64)
    ensures
        r == sub_bits(a, b),
{
    (Double::from_bits(a as u128) - Double::from_bits(b as u128)).value.to_bits() as u64
}

/// Relies on `rustc_apfloat::ieee::Double`'s `Mul` (round to nearest, ties
/// to even): the rounded product is a function of the operands' bit patterns
/// alone.
#[verifier::external_body]
pub(crate) fn scalar_mul(a: u64, b: u64) -> (r: u64)
    ensures
        r == mul_bits(a, b),
{
    (Double::from_bits(a as u128) * Double::from_bits(b as u128)).value.to_bits() as u64
}

/// Relies on `rustc_apfloat::ieee::Double`'s `Div` (round to nearest, ties
/// to even): the rounded quotient is a function of the operands' bit
/// patterns alone.
#[verifier::external_body]
pub(crate) fn scalar_div(a: u64, b: u64) -> (r: u64)
    ensures
        r == div_bits(a, b),
{
    (Double::from_bits(a as u128) / Double::from_bits(b as u128)).value.to_bits() as u64
}

/// Relies on `rustc_apfloat::Float::from_u128` (round to nearest, ties to
/// even): the double nearest to `n` is a function of `n` alone.
#[verifier::external_body]
pub(crate) fn scalar_from_u32(n: u32) -> (r: u64)
    ensures
        r == from_u32_bits(n),
{
    Double::from_u128(n as u128).value.to_bits() as u64
}

/// Relies on `PartialOrd for rustc_apfloat::ieee::IeeeFloat`: the IEEE
/// comparison against +0.0 is a function of the bit pattern alone, and a NaN
/// compares greater than nothing.
#[verifier::external_body]
pub(crate) fn scalar_is_pos(a: u64) -> (r: bool)
    ensures
        r == is_pos_bits(a),
{
    Double::from_bits(a as u128) > Double::from_bits(0)
}

} // verus!

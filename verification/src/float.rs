use rustc_apfloat::ieee::Double;
use rustc_apfloat::Float;
use vstd::prelude::*;

verus! {

// Floating-point values are carried through the language as the bit patterns
// of IEEE-754 binary64 numbers, held in `u64`. The operations below are
// performed by an outside soft-float library on those bit patterns; what each
// returns is given a name that the evaluator's contracts are stated over.

/// The sum of the two binary64 values with the given bit patterns.
pub uninterp spec fn add_bits(a: u64, b: u64) -> u64;

/// The difference of the two binary64 values with the given bit patterns.
pub uninterp spec fn sub_bits(a: u64, b: u64) -> u64;

/// The product of the two binary64 values with the given bit patterns.
pub uninterp spec fn mul_bits(a: u64, b: u64) -> u64;

/// The quotient of the two binary64 values with the given bit patterns.
pub uninterp spec fn div_bits(a: u64, b: u64) -> u64;

/// The negation of the binary64 value with the given bit pattern.
pub uninterp spec fn neg_bits(a: u64) -> u64;

/// The absolute value of the binary64 value with the given bit pattern.
pub uninterp spec fn abs_bits(a: u64) -> u64;

/// Whether the first binary64 value is strictly below the second.
pub uninterp spec fn lt_bits(a: u64, b: u64) -> bool;

/// The binary64 value nearest to the given 64-bit integer.
pub uninterp spec fn bits_of_i64(i: i64) -> u64;

/// The binary64 value denoted by a decimal literal, or `None` when the text
/// is not a number.
pub uninterp spec fn float_of_text(s: Seq<char>) -> Option<u64>;

/// The decimal rendering of the binary64 value with the given bit pattern.
pub uninterp spec fn float_text(b: u64) -> Seq<char>;

/// Bit pattern of the binary64 value 1.0e-6, the tolerance that the
/// language's equality test allows between its operands.
pub const EPSILON_BITS: u64 = 0x3EB0_C6F7_A0B5_ED8D;

/// Relies on rustc_apfloat's binary64 addition (`Add for IeeeFloat`),
/// a function of the two bit patterns alone.
#[verifier::external_body]
pub(crate) fn float_add(a: u64, b: u64) -> (r: u64)
    ensures
        r == add_bits(a, b),
{
    (Double::from_bits(a as u128) + Double::from_bits(b as u128)).value.to_bits() as u64
}

/// Relies on rustc_apfloat's binary64 subtraction (`Sub for IeeeFloat`),
/// a function of the two bit patterns alone.
#[verifier::external_body]
pub(crate) fn float_sub(a: u64, b: u64) -> (r: u64)
    ensures
        r == sub_bits(a, b),
{
    (Double::from_bits(a as u128) - Double::from_bits(b as u128)).value.to_bits() as u64
}

/// Relies on rustc_apfloat's binary64 multiplication (`Mul for IeeeFloat`),
/// a function of the two bit patterns alone.
#[verifier::external_body]
pub(crate) fn float_mul(a: u64, b: u64) -> (r: u64)
    ensures
        r == mul_bits(a, b),
{
    (Double::from_bits(a as u128) * Double::from_bits(b as u128)).value.to_bits() as u64
}

/// Relies on rustc_apfloat's binary64 division (`Div for IeeeFloat`), a
/// function of the two bit patterns alone; division by zero yields an
/// infinity or NaN, never a fault.
#[verifier::external_body]
pub(crate) fn float_div(a: u64, b: u64) -> (r: u64)
    ensures
        r == div_bits(a, b),
{
    (Double::from_bits(a as u128) / Double::from_bits(b as u128)).value.to_bits() as u64
}

/// Relies on rustc_apfloat's binary64 negation (`Neg for IeeeFloat`), a
/// function of the bit pattern alone.
#[verifier::external_body]
pub(crate) fn float_neg(a: u64) -> (r: u64)
    ensures
        r == neg_bits(a),
{
    (-Double::from_bits(a as u128)).to_bits() as u64
}

/// Relies on rustc_apfloat's binary64 absolute value (`Float::abs`), a
/// function of the bit pattern alone.
#[verifier::external_body]
pub(crate) fn float_abs(a: u64) -> (r: u64)
    ensures
        r == abs_bits(a),
{
    Double::from_bits(a as u128).abs().to_bits() as u64
}

/// Relies on rustc_apfloat's binary64 comparison (`PartialOrd for
/// IeeeFloat`), a function of the two bit patterns alone; any comparison
/// with a NaN is false.
#[verifier::external_body]
pub(crate) fn float_lt(a: u64, b: u64) -> (r: bool)
    ensures
        r == lt_bits(a, b),
{
    Double::from_bits(a as u128) < Double::from_bits(b as u128)
}

/// Relies on rustc_apfloat's conversion from an integer
/// (`Float::from_i128`, rounding to nearest), a function of the integer
/// alone.
#[verifier::external_body]
pub(crate) fn float_of_int(i: i64) -> (r: u64)
    ensures
        r == bits_of_i64(i),
{
    Double::from_i128(i as i128).value.to_bits() as u64
}

/// Relies on rustc_apfloat's decimal parsing (`FromStr for IeeeFloat`,
/// correctly rounded), a function of the text alone.
#[verifier::external_body]
pub(crate) fn parse_float_bits(s: &str) -> (r: Option<u64>)
    ensures
        r == float_of_text(s@),
{
    match s.parse::<Double>() {
        Ok(v) => Some(v.to_bits() as u64),
        Err(_) => None,
    }
}

/// Relies on rustc_apfloat's decimal rendering (`Display for IeeeFloat`),
/// a function of the bit pattern alone.
#[verifier::external_body]
pub(crate) fn render_float(b: u64) -> (r: String)
    ensures
        r@ == float_text(b),
{
    format!("{}", Double::from_bits(b as u128))
}

} // verus!

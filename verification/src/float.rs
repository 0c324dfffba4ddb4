use vstd::prelude::*;
use rustc_apfloat::ieee::Double;
use rustc_apfloat::{Float, Round};

verus! {

// Floating-point values are held as the bit patterns of IEEE-754 doubles.
// The arithmetic on them is computed by `rustc_apfloat`, which implements
// IEEE-754 binary64 with round-to-nearest-ties-to-even, the semantics of `f64`.

/// The double nearest to `i` (ties to even): what `i as f64` gives.
pub uninterp spec fn ieee_from_int(i: i64) -> u64;

/// The IEEE-754 sum of two doubles.
pub uninterp spec fn ieee_add(a: u64, b: u64) -> u64;

/// The IEEE-754 difference of two doubles.
pub uninterp spec fn ieee_sub(a: u64, b: u64) -> u64;

/// The IEEE-754 product of two doubles.
pub uninterp spec fn ieee_mul(a: u64, b: u64) -> u64;

/// The IEEE-754 quotient of two doubles.
pub uninterp spec fn ieee_div(a: u64, b: u64) -> u64;

/// The C `fmod` remainder of two doubles: what `%` gives on `f64`.
pub uninterp spec fn ieee_rem(a: u64, b: u64) -> u64;

/// A double rounded toward zero to an integral value: what `f64::trunc` gives.
pub uninterp spec fn ieee_trunc(a: u64) -> u64;

/// A double converted to `i64` toward zero, saturating, NaN to zero: what `as i64` gives.
pub uninterp spec fn ieee_to_i64(a: u64) -> i64;

/// The double that a number text denotes (correctly rounded), as `rustc_apfloat` reads
/// it (decimal or hexadecimal digits, or `nan` and `inf`), if it is one.
pub uninterp spec fn ieee_parse(text: Seq<char>) -> Option<u64>;

/// `i as f64` (`rustc_apfloat`'s `from_i128`), as a bit pattern.
#[verifier::external_body]
pub fn float_from_int(i: i64) -> (r: u64)
    ensures
        r == ieee_from_int(i),
{
    Double::from_i128(i as i128).value.to_bits() as u64
}

/// `a + b` on doubles (`rustc_apfloat`'s `Add`).
#[verifier::external_body]
pub fn float_add(a: u64, b: u64) -> (r: u64)
    ensures
        r == ieee_add(a, b),
{
    (Double::from_bits(a as u128) + Double::from_bits(b as u128)).value.to_bits() as u64
}

/// `a - b` on doubles (`rustc_apfloat`'s `Sub`).
#[verifier::external_body]
pub fn float_sub(a: u64, b: u64) -> (r: u64)
    ensures
        r == ieee_sub(a, b),
{
    (Double::from_bits(a as u128) - Double::from_bits(b as u128)).value.to_bits() as u64
}

/// `a * b` on doubles (`rustc_apfloat`'s `Mul`).
#[verifier::external_body]
pub fn float_mul(a: u64, b: u64) -> (r: u64)
    ensures
        r == ieee_mul(a, b),
{
    (Double::from_bits(a as u128) * Double::from_bits(b as u128)).value.to_bits() as u64
}

/// `a / b` on doubles (`rustc_apfloat`'s `Div`).
#[verifier::external_body]
pub fn float_div(a: u64, b: u64) -> (r: u64)
    ensures
        r == ieee_div(a, b),
{
    (Double::from_bits(a as u128) / Double::from_bits(b as u128)).value.to_bits() as u64
}

/// `a % b` on doubles (`rustc_apfloat`'s `Rem`, C `fmod`).
#[verifier::external_body]
pub fn float_rem(a: u64, b: u64) -> (r: u64)
    ensures
        r == ieee_rem(a, b),
{
    (Double::from_bits(a as u128) % Double::from_bits(b as u128)).value.to_bits() as u64
}

/// A double rounded toward zero (`rustc_apfloat`'s `round_to_integral`).
#[verifier::external_body]
pub fn float_trunc(a: u64) -> (r: u64)
    ensures
        r == ieee_trunc(a),
{
    Double::from_bits(a as u128).round_to_integral(Round::TowardZero).value.to_bits() as u64
}

/// A double converted to a 64-bit integer (`rustc_apfloat`'s `to_i128` at width 64).
#[verifier::external_body]
pub fn float_to_i64(a: u64) -> (r: i64)
    ensures
        r == ieee_to_i64(a),
{
    Double::from_bits(a as u128).to_i128(64).value as i64
}

/// Parses a decimal literal into a double (`rustc_apfloat`'s `from_str_r`).
#[verifier::external_body]
pub fn float_parse(text: &str) -> (r: Option<u64>)
    ensures
        r == ieee_parse(text@),
{
    match Double::from_str_r(text, Round::NearestTiesToEven) {
        Ok(v) => Some(v.value.to_bits() as u64),
        Err(_) => None,
    }
}

/// The sign bit of a double.
pub open spec fn sign_bit() -> u64 {
    0x8000_0000_0000_0000u64
}

/// The bits of a double without its sign.
pub open spec fn magnitude(a: u64) -> u64 {
    a & 0x7fff_ffff_ffff_ffffu64
}

/// A double is NaN when its exponent is all ones and its fraction is not zero.
pub open spec fn is_nan(a: u64) -> bool {
    magnitude(a) > 0x7ff0_0000_0000_0000u64
}

/// A double is finite when its exponent is not all ones.
pub open spec fn is_finite(a: u64) -> bool {
    magnitude(a) < 0x7ff0_0000_0000_0000u64
}

/// A double is a zero (of either sign) when its magnitude bits are zero.
pub open spec fn is_zero(a: u64) -> bool {
    magnitude(a) == 0
}

/// The IEEE order of two non-NaN doubles as an integer key: the sign-magnitude
/// encoding is monotone in the magnitude bits, and both zeros have key 0.
pub open spec fn order_key(a: u64) -> int {
    if a & sign_bit() != 0 {
        -(magnitude(a) as int)
    } else {
        magnitude(a) as int
    }
}

/// Negation of a double flips its sign bit.
pub fn float_neg(a: u64) -> (r: u64)
    ensures
        r == a ^ sign_bit(),
{
    a ^ 0x8000_0000_0000_0000u64
}

/// Whether a double differs from zero (NaN does).
pub fn float_nonzero(a: u64) -> (r: bool)
    ensures
        r == !is_zero(a),
{
    (a & 0x7fff_ffff_ffff_ffffu64) != 0
}

/// Whether a double is NaN.
pub fn float_is_nan(a: u64) -> (r: bool)
    ensures
        r == is_nan(a),
{
    (a & 0x7fff_ffff_ffff_ffffu64) > 0x7ff0_0000_0000_0000u64
}

/// Whether a double is finite.
pub fn float_is_finite(a: u64) -> (r: bool)
    ensures
        r == is_finite(a),
{
    (a & 0x7fff_ffff_ffff_ffffu64) < 0x7ff0_0000_0000_0000u64
}

/// The IEEE order key of a double.
pub fn float_order_key(a: u64) -> (r: i64)
    ensures
        r == order_key(a),
{
    let m: u64 = a & 0x7fff_ffff_ffff_ffffu64;
    assert(m <= 0x7fff_ffff_ffff_ffffu64) by (bit_vector)
        requires m == a & 0x7fff_ffff_ffff_ffffu64;
    if a & 0x8000_0000_0000_0000u64 != 0 {
        -(m as i64)
    } else {
        m as i64
    }
}

/// Whether `f.fract() == 0.0`: the double is finite and equal to its truncation.
pub fn float_is_integral(a: u64) -> (r: bool)
    ensures
        r == (is_finite(a) && ieee_trunc(a) == a),
{
    float_is_finite(a) && float_trunc(a) == a
}

} // verus!

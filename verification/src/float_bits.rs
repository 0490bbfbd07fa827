//! IEEE 754 binary64 numbers, represented by their 64-bit encodings.
//!
//! The language's numbers are IEEE doubles.  This crate keeps them as plain
//! `u64` bit patterns so that the whole value domain stays in integers.
//! Sign tests, NaN tests, comparisons, truthiness, negation and integer
//! truncation are bit-level arithmetic, implemented and verified here.
//! Rounding arithmetic, decimal parsing and decimal rendering are performed
//! by `rustc_apfloat`, a pure-software IEEE 754 implementation, behind the
//! trusted wrappers at the end of this file.

use vstd::prelude::*;

use rustc_apfloat::Float;

verus! {

/// Mask of the sign bit of a binary64 encoding.
pub const SIGN_MASK: u64 = 0x8000_0000_0000_0000;

/// Mask of everything but the sign bit (exponent and fraction).
pub const MAG_MASK: u64 = 0x7fff_ffff_ffff_ffff;

/// Mask of the eleven exponent bits.
pub const EXP_MASK: u64 = 0x7ff0_0000_0000_0000;

/// Mask of the fifty-two fraction bits.
pub const FRAC_MASK: u64 = 0x000f_ffff_ffff_ffff;

/// The implicit leading bit of a normal significand, 2^52.
pub const IMPLICIT_BIT: u64 = 0x0010_0000_0000_0000;

/// The sign bit of the encoding `b` is set.  (Note that NaN encodings also
/// carry a sign bit; a "negative" NaN is still a NaN.)
pub open spec fn is_negative(b: u64) -> bool {
    b & SIGN_MASK == SIGN_MASK
}

/// The magnitude part of the encoding: exponent and fraction bits.
pub open spec fn magnitude(b: u64) -> u64 {
    b & MAG_MASK
}

/// `b` encodes a NaN: exponent bits all ones and a nonzero fraction,
/// which is exactly a magnitude above `EXP_MASK`.
pub open spec fn is_nan(b: u64) -> bool {
    magnitude(b) > EXP_MASK
}

/// `b` encodes a (positive or negative) infinity.
pub open spec fn is_infinite(b: u64) -> bool {
    magnitude(b) == EXP_MASK
}

/// `b` encodes a (positive or negative) zero.
pub open spec fn is_zero(b: u64) -> bool {
    magnitude(b) == 0
}

/// The key under which the finite and infinite doubles are totally ordered:
/// sign-magnitude read as an integer.  Both zeros map to 0, so the key order
/// is exactly the IEEE order of the non-NaN doubles.
pub open spec fn order_key(b: u64) -> int {
    if is_negative(b) {
        -(magnitude(b) as int)
    } else {
        magnitude(b) as int
    }
}

/// IEEE equality of the two encodings: false whenever either side is a NaN,
/// true for `-0.0 == 0.0`, bitwise equality otherwise.
pub open spec fn ieee_eq(a: u64, b: u64) -> bool {
    !is_nan(a) && !is_nan(b) && order_key(a) == order_key(b)
}

/// IEEE `<` on the two encodings: false whenever either side is a NaN.
pub open spec fn ieee_lt(a: u64, b: u64) -> bool {
    !is_nan(a) && !is_nan(b) && order_key(a) < order_key(b)
}

/// IEEE `<=` on the two encodings: false whenever either side is a NaN.
pub open spec fn ieee_le(a: u64, b: u64) -> bool {
    !is_nan(a) && !is_nan(b) && order_key(a) <= order_key(b)
}

/// The truthiness the language gives a number: `n >= 0.0`.  NaN is falsy,
/// `-0.0` is truthy (it equals `0.0`), every other negative is falsy.
pub open spec fn num_truthy(b: u64) -> bool {
    !is_nan(b) && (!is_negative(b) || is_zero(b))
}

/// IEEE negation: the sign bit flipped, exactly, for every encoding.
pub open spec fn negated(b: u64) -> u64 {
    b ^ SIGN_MASK
}

/// The unbiased exponent field of the encoding.
pub open spec fn exp_field(b: u64) -> u64 {
    (b & EXP_MASK) >> 52
}

/// The number of times a string is repeated when multiplied by the double
/// encoded by `b`: the integer part of the value, clamped to `[0, u64::MAX]`,
/// with NaN giving 0.  For a value in `[1.0, 2^64)` the integer part is the
/// 53-bit significand shifted by the unbiased exponent.
pub open spec fn repeat_count(b: u64) -> u64 {
    if is_nan(b) || is_negative(b) {
        0u64
    } else if exp_field(b) < 1023 {
        0u64
    } else if exp_field(b) >= 1087 {
        u64::MAX
    } else {
        let m = (b & FRAC_MASK) | IMPLICIT_BIT;
        let e = exp_field(b);
        if e <= 1075 {
            m >> (1075 - e) as u64
        } else {
            m << (e - 1075) as u64
        }
    }
}

/// Exponent and fraction of equal encodings decompose equally; used to turn
/// magnitude equality into bit equality.
proof fn lemma_same_sign_same_magnitude(a: u64, b: u64)
    requires
        (a & 0x8000_0000_0000_0000u64 == 0x8000_0000_0000_0000u64) == (b
            & 0x8000_0000_0000_0000u64 == 0x8000_0000_0000_0000u64),
        a & 0x7fff_ffff_ffff_ffffu64 == b & 0x7fff_ffff_ffff_ffffu64,
    ensures
        a == b,
{
    assert(((a & 0x8000_0000_0000_0000u64 == 0x8000_0000_0000_0000u64) == (b
        & 0x8000_0000_0000_0000u64 == 0x8000_0000_0000_0000u64) && a & 0x7fff_ffff_ffff_ffffu64 == b
        & 0x7fff_ffff_ffff_ffffu64) ==> a == b) by (bit_vector);
}

/// Whether `b` encodes a NaN.
pub fn num_is_nan(b: u64) -> (r: bool)
    ensures
        r == is_nan(b),
{
    (b & MAG_MASK) > EXP_MASK
}

/// Whether `b` encodes a zero.
pub fn num_is_zero(b: u64) -> (r: bool)
    ensures
        r == is_zero(b),
{
    (b & MAG_MASK) == 0
}

/// The truthiness of the number encoded by `b`.
pub fn num_is_truthy(b: u64) -> (r: bool)
    ensures
        r == num_truthy(b),
{
    if (b & MAG_MASK) > EXP_MASK {
        false
    } else {
        (b & SIGN_MASK) != SIGN_MASK || (b & MAG_MASK) == 0
    }
}

/// IEEE equality of the numbers encoded by `a` and `b`.
pub fn num_eq(a: u64, b: u64) -> (r: bool)
    ensures
        r == ieee_eq(a, b),
{
    if (a & MAG_MASK) > EXP_MASK || (b & MAG_MASK) > EXP_MASK {
        false
    } else if (a & MAG_MASK) == 0 && (b & MAG_MASK) == 0 {
        true
    } else if a == b {
        true
    } else {
        proof {
            if order_key(a) == order_key(b) {
                if is_negative(a) == is_negative(b) {
                    lemma_same_sign_same_magnitude(a, b);
                }
            }
        }
        false
    }
}

/// IEEE `<` of the numbers encoded by `a` and `b`.
pub fn num_lt(a: u64, b: u64) -> (r: bool)
    ensures
        r == ieee_lt(a, b),
{
    if (a & MAG_MASK) > EXP_MASK || (b & MAG_MASK) > EXP_MASK {
        return false;
    }
    let neg_a = (a & SIGN_MASK) == SIGN_MASK;
    let neg_b = (b & SIGN_MASK) == SIGN_MASK;
    if neg_a && neg_b {
        (b & MAG_MASK) < (a & MAG_MASK)
    } else if !neg_a && !neg_b {
        (a & MAG_MASK) < (b & MAG_MASK)
    } else if neg_a {
        !((a & MAG_MASK) == 0 && (b & MAG_MASK) == 0)
    } else {
        false
    }
}

/// IEEE `<=` of the numbers encoded by `a` and `b`.
pub fn num_le(a: u64, b: u64) -> (r: bool)
    ensures
        r == ieee_le(a, b),
{
    if (a & MAG_MASK) > EXP_MASK || (b & MAG_MASK) > EXP_MASK {
        return false;
    }
    let neg_a = (a & SIGN_MASK) == SIGN_MASK;
    let neg_b = (b & SIGN_MASK) == SIGN_MASK;
    if neg_a && neg_b {
        (b & MAG_MASK) <= (a & MAG_MASK)
    } else if !neg_a && !neg_b {
        (a & MAG_MASK) <= (b & MAG_MASK)
    } else if neg_a {
        true
    } else {
        (a & MAG_MASK) == 0 && (b & MAG_MASK) == 0
    }
}

/// The encoding of the negated number.
pub fn num_negate(b: u64) -> (r: u64)
    ensures
        r == negated(b),
{
    b ^ SIGN_MASK
}

/// The repetition count for string multiplication by the number encoded in `b`.
pub fn num_repeat_count(b: u64) -> (r: u64)
    ensures
        r == repeat_count(b),
{
    if (b & MAG_MASK) > EXP_MASK || (b & SIGN_MASK) == SIGN_MASK {
        return 0;
    }
    let e = (b & EXP_MASK) >> 52;
    proof {
        assert((b & 0x7ff0_0000_0000_0000u64) >> 52u64 <= 0x7ffu64) by (bit_vector);
    }
    if e < 1023 {
        0
    } else if e >= 1087 {
        u64::MAX
    } else {
        let m = (b & FRAC_MASK) | IMPLICIT_BIT;
        if e <= 1075 {
            m >> (1075 - e)
        } else {
            m << (e - 1075)
        }
    }
}

/// The bit pattern that `rustc_apfloat` returns for the IEEE sum of the
/// doubles encoded by `a` and `b` (round to nearest, ties to even).
pub uninterp spec fn add_bits(a: u64, b: u64) -> u64;

/// Relies on `rustc_apfloat::ieee::Double`'s `+`: software IEEE 754 binary64
/// addition, a pure function of the two encodings.
#[verifier::external_body]
pub fn num_add(a: u64, b: u64) -> (r: u64)
    ensures
        r == add_bits(a, b),
{
    let x = rustc_apfloat::ieee::Double::from_bits(a as u128);
    let y = rustc_apfloat::ieee::Double::from_bits(b as u128);
    (x + y).value.to_bits() as u64
}

/// The bit pattern that `rustc_apfloat` returns for the IEEE difference of
/// the doubles encoded by `a` and `b`.
pub uninterp spec fn sub_bits(a: u64, b: u64) -> u64;

/// Relies on `rustc_apfloat::ieee::Double`'s `-`: software IEEE 754 binary64
/// subtraction, a pure function of the two encodings.
#[verifier::external_body]
pub fn num_sub(a: u64, b: u64) -> (r: u64)
    ensures
        r == sub_bits(a, b),
{
    let x = rustc_apfloat::ieee::Double::from_bits(a as u128);
    let y = rustc_apfloat::ieee::Double::from_bits(b as u128);
    (x - y).value.to_bits() as u64
}

/// The bit pattern that `rustc_apfloat` returns for the IEEE product of the
/// doubles encoded by `a` and `b`.
pub uninterp spec fn mul_bits(a: u64, b: u64) -> u64;

/// Relies on `rustc_apfloat::ieee::Double`'s `*`: software IEEE 754 binary64
/// multiplication, a pure function of the two encodings.
#[verifier::external_body]
pub fn num_mul(a: u64, b: u64) -> (r: u64)
    ensures
        r == mul_bits(a, b),
{
    let x = rustc_apfloat::ieee::Double::from_bits(a as u128);
    let y = rustc_apfloat::ieee::Double::from_bits(b as u128);
    (x * y).value.to_bits() as u64
}

/// The bit pattern that `rustc_apfloat` returns for the IEEE quotient of the
/// doubles encoded by `a` and `b`.
pub uninterp spec fn div_bits(a: u64, b: u64) -> u64;

/// Relies on `rustc_apfloat::ieee::Double`'s `/`: software IEEE 754 binary64
/// division, a pure function of the two encodings.  Division by zero does not
/// trap: per `div_r` in `rustc_apfloat`, zero over zero and NaN over zero are
/// NaN, and any other value over zero is an infinity whose sign is the
/// exclusive or of the operands' signs.
#[verifier::external_body]
pub fn num_div(a: u64, b: u64) -> (r: u64)
    ensures
        r == div_bits(a, b),
        is_zero(b) && is_zero(a) ==> is_nan(r),
        is_zero(b) && is_nan(a) ==> is_nan(r),
        is_zero(b) && !is_zero(a) && !is_nan(a) ==> is_infinite(r) && is_negative(r) == (
        is_negative(a) != is_negative(b)),
{
    let x = rustc_apfloat::ieee::Double::from_bits(a as u128);
    let y = rustc_apfloat::ieee::Double::from_bits(b as u128);
    (x / y).value.to_bits() as u64
}

/// The outcome of `rustc_apfloat`'s decimal parser on the characters of `s`:
/// the bit pattern of the nearest double (ties to even), or `None` when the
/// characters are not a decimal number it accepts.
pub uninterp spec fn decimal_value_of(s: Seq<char>) -> Option<u64>;

/// Relies on `rustc_apfloat::ieee::Double`'s `FromStr`: correctly rounded
/// decimal-to-binary64 conversion, a pure function of the characters.
#[verifier::external_body]
pub fn num_from_decimal(s: &str) -> (r: Option<u64>)
    ensures
        r == decimal_value_of(s@),
{
    match s.parse::<rustc_apfloat::ieee::Double>() {
        Ok(d) => Some(d.to_bits() as u64),
        Err(_) => None,
    }
}

/// The characters that `rustc_apfloat`'s `Display` renders for the double
/// encoded by `b`: a round-trippable decimal form, a function of the bit
/// pattern alone.
pub uninterp spec fn decimal_of(b: u64) -> Seq<char>;

/// Relies on `rustc_apfloat::ieee::Double`'s `Display` ("{}" format): a
/// decimal rendering with enough digits to round-trip, a pure function of
/// the encoding.
#[verifier::external_body]
pub fn num_to_decimal(b: u64) -> (r: String)
    ensures
        r@ == decimal_of(b),
{
    format!("{}", rustc_apfloat::ieee::Double::from_bits(b as u128))
}

} // verus!

//! Single-precision float operations over their IEEE-754 bit patterns.
//!
//! The crate stores every float as its 32-bit pattern and never touches a
//! machine float. Arithmetic, square roots, trigonometry, parsing and
//! formatting are carried out by outside soft-float code behind the trusted
//! wrappers below; each result is named by an uninterpreted spec function,
//! since it depends on the operands' bit patterns alone.

use vstd::prelude::*;

use rustc_apfloat::Float;
use rustc_apfloat::ieee::Single;
use astro_float::BigFloat;
use astro_float::Consts;
use astro_float::Radix;
use astro_float::RoundingMode;

verus! {

/// Bit pattern of 0.0
pub const ZERO_BITS: u32 = 0;

/// Bit pattern of 1.0
pub const ONE_BITS: u32 = 0x3F80_0000;

/// Bit pattern of -1.0
pub const NEG_ONE_BITS: u32 = 0xBF80_0000;

/// Bit pattern of 2.0
pub const TWO_BITS: u32 = 0x4000_0000;

/// Bit pattern of the closest single-precision value to the circle constant
pub const PI_BITS: u32 = 0x4049_0FDB;

/// True of a bit pattern that encodes an IEEE-754 single-precision NaN:
/// all exponent bits set and a non-zero mantissa.
pub open spec fn is_nan_bits(bits: u32) -> bool {
    let abs = if bits >= 0x8000_0000 { (bits - 0x8000_0000) as u32 } else { bits };
    abs > 0x7f80_0000
}

/// Bit pattern of the IEEE-754 sum of two single-precision values.
pub uninterp spec fn add_bits(a: u32, b: u32) -> u32;

/// Bit pattern of the IEEE-754 difference of two single-precision values.
pub uninterp spec fn sub_bits(a: u32, b: u32) -> u32;

/// Bit pattern of the IEEE-754 product of two single-precision values.
pub uninterp spec fn mul_bits(a: u32, b: u32) -> u32;

/// Bit pattern of the IEEE-754 quotient of two single-precision values.
pub uninterp spec fn div_bits(a: u32, b: u32) -> u32;

/// Bit pattern of a negated single-precision value.
pub uninterp spec fn neg_bits(a: u32) -> u32;

/// Bit pattern of the rounded square root of a single-precision value.
pub uninterp spec fn sqrt_bits(a: u32) -> u32;

/// Bit pattern of the rounded sine of a single-precision value.
pub uninterp spec fn sin_bits(a: u32) -> u32;

/// Bit pattern of the rounded cosine of a single-precision value.
pub uninterp spec fn cos_bits(a: u32) -> u32;

/// Bit pattern of the single-precision value nearest to the given integer.
pub uninterp spec fn float_of_usize(i: usize) -> u32;

/// The decimal text that the float formatter produces for the
/// single-precision value with the given bit pattern. The exact digit string
/// takes pages to state, but it depends on the bit pattern alone.
pub uninterp spec fn decimal_of(bits: u32) -> Seq<u8>;

/// The bit pattern, if any, that float parsing assigns to the given text.
pub uninterp spec fn float_bits_of(token: Seq<u8>) -> Option<u32>;

/// Relies on rustc_apfloat's IEEE single-precision addition
/// (correctly rounded, ties to even).
#[verifier::external_body]
pub(crate) fn float_add(a: u32, b: u32) -> (r: u32)
    ensures
        r == add_bits(a, b),
{
    (Single::from_bits(a as u128) + Single::from_bits(b as u128)).value.to_bits() as u32
}

/// Relies on rustc_apfloat's IEEE single-precision subtraction.
#[verifier::external_body]
pub(crate) fn float_sub(a: u32, b: u32) -> (r: u32)
    ensures
        r == sub_bits(a, b),
{
    (Single::from_bits(a as u128) - Single::from_bits(b as u128)).value.to_bits() as u32
}

/// Relies on rustc_apfloat's IEEE single-precision multiplication.
#[verifier::external_body]
pub(crate) fn float_mul(a: u32, b: u32) -> (r: u32)
    ensures
        r == mul_bits(a, b),
{
    (Single::from_bits(a as u128) * Single::from_bits(b as u128)).value.to_bits() as u32
}

/// Relies on rustc_apfloat's IEEE single-precision division.
#[verifier::external_body]
pub(crate) fn float_div(a: u32, b: u32) -> (r: u32)
    ensures
        r == div_bits(a, b),
{
    (Single::from_bits(a as u128) / Single::from_bits(b as u128)).value.to_bits() as u32
}

/// Relies on rustc_apfloat's sign flip for IEEE single precision.
#[verifier::external_body]
pub(crate) fn float_neg(a: u32) -> (r: u32)
    ensures
        r == neg_bits(a),
{
    (-Single::from_bits(a as u128)).to_bits() as u32
}

/// Relies on rustc_apfloat's integer-to-float conversion
/// (round to nearest, ties to even).
#[verifier::external_body]
pub(crate) fn usize_to_float(i: usize) -> (r: u32)
    ensures
        r == float_of_usize(i),
{
    Single::from_u128(i as u128).value.to_bits() as u32
}

/// Relies on astro-float's arbitrary-precision square root, reached over
/// rustc_apfloat's decimal formatting and parsing; computed well beyond
/// single precision and rounded back down.
#[verifier::external_body]
pub(crate) fn float_sqrt(a: u32) -> (r: u32)
    ensures
        r == sqrt_bits(a),
{
    let mut cc = Consts::new().expect("constants cache");
    let x = BigFloat::parse(
        &format!("{}", Single::from_bits(a as u128)),
        Radix::Dec, 192, RoundingMode::ToEven, &mut cc,
    );
    let y = x.sqrt(192, RoundingMode::ToEven);
    match format!("{}", y).parse::<Single>() {
        Ok(v) => v.to_bits() as u32,
        Err(_) => 0x7fc0_0000,
    }
}

/// Relies on astro-float's arbitrary-precision sine, reached over
/// rustc_apfloat's decimal formatting and parsing.
#[verifier::external_body]
pub(crate) fn float_sin(a: u32) -> (r: u32)
    ensures
        r == sin_bits(a),
{
    let mut cc = Consts::new().expect("constants cache");
    let x = BigFloat::parse(
        &format!("{}", Single::from_bits(a as u128)),
        Radix::Dec, 192, RoundingMode::ToEven, &mut cc,
    );
    let y = x.sin(192, RoundingMode::ToEven, &mut cc);
    match format!("{}", y).parse::<Single>() {
        Ok(v) => v.to_bits() as u32,
        Err(_) => 0x7fc0_0000,
    }
}

/// Relies on astro-float's arbitrary-precision cosine, reached over
/// rustc_apfloat's decimal formatting and parsing.
#[verifier::external_body]
pub(crate) fn float_cos(a: u32) -> (r: u32)
    ensures
        r == cos_bits(a),
{
    let mut cc = Consts::new().expect("constants cache");
    let x = BigFloat::parse(
        &format!("{}", Single::from_bits(a as u128)),
        Radix::Dec, 192, RoundingMode::ToEven, &mut cc,
    );
    let y = x.cos(192, RoundingMode::ToEven, &mut cc);
    match format!("{}", y).parse::<Single>() {
        Ok(v) => v.to_bits() as u32,
        Err(_) => 0x7fc0_0000,
    }
}

/// Relies on rustc_apfloat's decimal parsing for IEEE single precision
/// (correctly rounded, ties to even); the result depends on the token's
/// bytes alone.
#[verifier::external_body]
pub(crate) fn parse_float_bits(token: &[u8]) -> (r: Option<u32>)
    ensures
        r == float_bits_of(token@),
{
    match core::str::from_utf8(token) {
        Ok(s) => s.parse::<Single>().ok().map(|v| v.to_bits() as u32),
        Err(_) => None,
    }
}

/// Relies on rustc_apfloat's decimal formatting for IEEE single precision:
/// it prints enough digits that parsing the text back recovers the same
/// value, and never emits blanks or unprintable bytes.
#[verifier::external_body]
pub(crate) fn format_float_bits(bits: u32) -> (r: Vec<u8>)
    ensures
        r@ == decimal_of(bits),
        r@.len() > 0,
        forall|i: int| 0 <= i < r@.len() ==> 0x20 < #[trigger] r@[i] < 0x7f,
        !is_nan_bits(bits) ==> float_bits_of(r@) == Some(bits),
{
    format!("{}", Single::from_bits(bits as u128)).into_bytes()
}

} // verus!

use rustc_apfloat::Float;
use vstd::prelude::*;

verus! {

// Floats are carried through the whole library as the bit pattern of an
// IEEE-754 binary32 number, held in a `u32`. Arithmetic on such bit
// patterns is done by the `rustc_apfloat` software implementation of
// IEEE-754, whose results are a function of the argument bits alone; the
// names below stand for those results.
/// The bits of the binary32 sum of two binary32 values.
pub uninterp spec fn float_add(a: u32, b: u32) -> u32;

/// The bits of the binary32 difference of two binary32 values.
pub uninterp spec fn float_sub(a: u32, b: u32) -> u32;

/// The bits of the binary32 product of two binary32 values.
pub uninterp spec fn float_mul(a: u32, b: u32) -> u32;

/// The bits of the binary32 quotient of two binary32 values; division by
/// zero yields an infinity or NaN, never an error.
pub uninterp spec fn float_div(a: u32, b: u32) -> u32;

/// The bits of the binary32 value nearest to an integer.
pub uninterp spec fn float_of_int(v: i32) -> u32;

/// The bits of the binary32 value nearest to a decimal literal.
pub uninterp spec fn float_of_decimal(s: Seq<char>) -> u32;

/// A decimal rendering of a binary32 value, as `rustc_apfloat` prints it.
pub uninterp spec fn decimal_of_float(bits: u32) -> Seq<char>;

/// Relies on `rustc_apfloat::ieee::Single::add_r` (round to nearest, ties
/// to even), the IEEE-754 binary32 addition on bit patterns.
#[verifier::external_body]
pub(crate) fn add_floats(a: u32, b: u32) -> (r: u32)
    ensures
        r == float_add(a, b),
{
    let x = rustc_apfloat::ieee::Single::from_bits(a as u128);
    let y = rustc_apfloat::ieee::Single::from_bits(b as u128);
    x.add_r(y, rustc_apfloat::Round::NearestTiesToEven).value.to_bits() as u32
}

/// Relies on `rustc_apfloat::ieee::Single::sub_r` (round to nearest, ties
/// to even), the IEEE-754 binary32 subtraction on bit patterns.
#[verifier::external_body]
pub(crate) fn sub_floats(a: u32, b: u32) -> (r: u32)
    ensures
        r == float_sub(a, b),
{
    let x = rustc_apfloat::ieee::Single::from_bits(a as u128);
    let y = rustc_apfloat::ieee::Single::from_bits(b as u128);
    x.sub_r(y, rustc_apfloat::Round::NearestTiesToEven).value.to_bits() as u32
}

/// Relies on `rustc_apfloat::ieee::Single::mul_r` (round to nearest, ties
/// to even), the IEEE-754 binary32 multiplication on bit patterns.
#[verifier::external_body]
pub(crate) fn mul_floats(a: u32, b: u32) -> (r: u32)
    ensures
        r == float_mul(a, b),
{
    let x = rustc_apfloat::ieee::Single::from_bits(a as u128);
    let y = rustc_apfloat::ieee::Single::from_bits(b as u128);
    x.mul_r(y, rustc_apfloat::Round::NearestTiesToEven).value.to_bits() as u32
}

/// Relies on `rustc_apfloat::ieee::Single::div_r` (round to nearest, ties
/// to even), the IEEE-754 binary32 division on bit patterns: division by
/// zero returns an infinity or NaN and never fails — a dividend that is
/// neither NaN nor a zero, over a zero, gives exactly the infinity whose
/// sign is the two signs combined.
#[verifier::external_body]
pub(crate) fn div_floats(a: u32, b: u32) -> (r: u32)
    ensures
        r == float_div(a, b),
        (b & 0x7FFF_FFFFu32) == 0 && !is_nan_pattern(a) && (a & 0x7FFF_FFFFu32) != 0 ==> r == (
        ((a ^ b) & 0x8000_0000u32) | 0x7F80_0000u32),
{
    let x = rustc_apfloat::ieee::Single::from_bits(a as u128);
    let y = rustc_apfloat::ieee::Single::from_bits(b as u128);
    x.div_r(y, rustc_apfloat::Round::NearestTiesToEven).value.to_bits() as u32
}

/// Relies on `rustc_apfloat::ieee::Single::from_i128`: the binary32 value
/// nearest to an integer (round to nearest, ties to even).
#[verifier::external_body]
pub(crate) fn int_to_float(v: i32) -> (r: u32)
    ensures
        r == float_of_int(v),
{
    rustc_apfloat::ieee::Single::from_i128(v as i128).value.to_bits() as u32
}

/// A non-empty run of ASCII digits holding at most one dot: the shape of
/// numeric literal the lexer builds, and a shape `rustc_apfloat` always
/// accepts.
pub open spec fn is_plain_decimal(s: Seq<char>) -> bool {
    &&& s.len() > 0
    &&& forall|i: int|
        0 <= i < s.len() ==> ((48 <= (#[trigger] s[i]) as u32 && s[i] as u32 <= 57) || s[i]
            == '.')
    &&& exists|i: int| 0 <= i < s.len() && 48 <= (#[trigger] s[i]) as u32 && s[i] as u32 <= 57
    &&& forall|i: int, j: int|
        0 <= i < j < s.len() && #[trigger] s[i] == '.' && #[trigger] s[j] == '.' ==> false
}

/// Relies on `rustc_apfloat::ieee::Single::from_str_r` (round to nearest,
/// ties to even): it turns a decimal literal into the nearest binary32
/// value, and accepts every non-empty string of ASCII digits with at most
/// one dot.
#[verifier::external_body]
pub(crate) fn parse_float(s: &str) -> (r: Option<u32>)
    ensures
        r is Some ==> r->Some_0 == float_of_decimal(s@),
        is_plain_decimal(s@) ==> r is Some,
{
    match <rustc_apfloat::ieee::Single as core::str::FromStr>::from_str(s) {
        Ok(v) => Some(v.to_bits() as u32),
        Err(_) => None,
    }
}

/// Relies on the `Display` rendering of `rustc_apfloat::ieee::Single`: a
/// decimal form of a binary32 value, a function of the bits alone.
#[verifier::external_body]
fn format_float(bits: u32) -> (r: String)
    ensures
        r@ == decimal_of_float(bits),
{
    let v = rustc_apfloat::ieee::Single::from_bits(bits as u128);
    format!("{}", v)
}

#[verifier::external_type_specification]
#[verifier::external_body]
pub struct ExBigFloat(num_bigfloat::BigFloat);

/// Relies on `num_bigfloat::BigFloat::parse`: it reads a decimal rendering
/// (and the forms `Inf`, `-Inf`, `NaN`) into a 40-digit decimal float.
#[verifier::external_body]
fn big_from_text(s: &str) -> (r: Option<num_bigfloat::BigFloat>) {
    num_bigfloat::BigFloat::parse(s)
}

/// Relies on `num_bigfloat::BigFloat::pow`: decimal floating-point power.
#[verifier::external_body]
fn big_pow(base: &num_bigfloat::BigFloat, exp: &num_bigfloat::BigFloat) -> (r:
    num_bigfloat::BigFloat) {
    base.pow(exp)
}

/// Relies on `num_bigfloat::BigFloat::is_nan`.
#[verifier::external_body]
fn big_is_nan(v: &num_bigfloat::BigFloat) -> (r: bool) {
    v.is_nan()
}

/// Relies on `num_bigfloat::BigFloat::is_inf_pos`.
#[verifier::external_body]
fn big_is_inf_pos(v: &num_bigfloat::BigFloat) -> (r: bool) {
    v.is_inf_pos()
}

/// Relies on `num_bigfloat::BigFloat::is_inf_neg`.
#[verifier::external_body]
fn big_is_inf_neg(v: &num_bigfloat::BigFloat) -> (r: bool) {
    v.is_inf_neg()
}

/// Relies on the `Display` rendering of `num_bigfloat::BigFloat`: a decimal
/// form with at most 40 significant digits.
#[verifier::external_body]
fn big_format(v: &num_bigfloat::BigFloat) -> (r: String) {
    format!("{}", v)
}

/// Whether a binary32 bit pattern denotes a NaN.
pub open spec fn is_nan_pattern(bits: u32) -> bool {
    bits & 0x7FFF_FFFFu32 > 0x7F80_0000u32
}

/// Whether a binary32 bit pattern denotes an infinity.
pub open spec fn is_inf_pattern(bits: u32) -> bool {
    bits & 0x7FFF_FFFFu32 == 0x7F80_0000u32
}

/// IEEE-754 negation of a binary32 value: the sign bit flips, every other
/// bit stays.
pub open spec fn float_neg(bits: u32) -> u32 {
    bits ^ 0x8000_0000u32
}

/// Flips the sign bit of a binary32 bit pattern; this is exactly the
/// IEEE-754 negation of the value.
pub(crate) fn negate_float(bits: u32) -> (r: u32)
    ensures
        r == float_neg(bits),
{
    bits ^ 0x8000_0000u32
}

/// The binary32 power of two bit patterns. The result is computed over a
/// 40-digit decimal bridge, so its precision is unspecified, as a floating
/// power is; no contract pins the bits.
pub(crate) fn pow_floats(a: u32, b: u32) -> u32 {
    let ta = float_to_text(a);
    let tb = float_to_text(b);
    let ba = match big_from_text(ta.as_str()) {
        Some(v) => v,
        None => {
            return 0x7FC0_0000u32;
        },
    };
    let bb = match big_from_text(tb.as_str()) {
        Some(v) => v,
        None => {
            return 0x7FC0_0000u32;
        },
    };
    let p = big_pow(&ba, &bb);
    if big_is_nan(&p) {
        0x7FC0_0000u32
    } else if big_is_inf_pos(&p) {
        0x7F80_0000u32
    } else if big_is_inf_neg(&p) {
        0xFF80_0000u32
    } else {
        match parse_float(big_format(&p).as_str()) {
            Some(bits) => bits,
            None => 0x7FC0_0000u32,
        }
    }
}

/// A text form of a binary32 bit pattern that `BigFloat::parse` reads back:
/// `NaN`, `Inf` and `-Inf` for the special values, a decimal rendering for
/// the finite ones.
fn float_to_text(bits: u32) -> (r: String)
    ensures
        !is_nan_pattern(bits) && !is_inf_pattern(bits) ==> r@ == decimal_of_float(bits),
{
    let masked = bits & 0x7FFF_FFFFu32;
    if masked > 0x7F80_0000u32 {
        String::from_str("NaN")
    } else if masked == 0x7F80_0000u32 {
        if bits >= 0x8000_0000u32 {
            String::from_str("-Inf")
        } else {
            String::from_str("Inf")
        }
    } else {
        format_float(bits)
    }
}

/// Integer power with the multiplications wrapping around, the way a release
/// build multiplies: the bits are those of repeated modular multiplication.
pub open spec fn pow_wrapped(base: u32, exp: nat) -> u32
    decreases exp,
{
    if exp == 0 {
        1u32
    } else {
        vstd::wrapping::u32_specs::wrapping_mul(pow_wrapped(base, (exp - 1) as nat), base)
    }
}

/// Integer power of an `i32` base and a non-negative exponent, every
/// multiplication wrapping around.
pub(crate) fn pow_wrapping(base: i32, exp: u32) -> (r: i32)
    ensures
        r == pow_wrapped(base as u32, exp as nat) as i32,
{
    let ub: u32 = base as u32;
    let mut acc: u32 = 1;
    let mut i: u32 = 0;
    while i < exp
        invariant
            i <= exp,
            acc == pow_wrapped(ub, i as nat),
        decreases exp - i,
    {
        acc = acc.wrapping_mul(ub);
        i = i + 1;
    }
    acc as i32
}

/// Negation of an `i32` the way a release build negates: the minimum value
/// wraps to itself.
pub open spec fn neg_wrapped(v: i32) -> i32 {
    if v == i32::MIN {
        i32::MIN
    } else {
        (-v) as i32
    }
}

/// Wrapping negation of an `i32`.
pub(crate) fn negate_int(v: i32) -> (r: i32)
    ensures
        r == neg_wrapped(v),
{
    if v == i32::MIN {
        i32::MIN
    } else {
        -v
    }
}

} // verus!

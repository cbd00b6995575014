//! Arbitrary-precision integers: the interface to `num_bigint`.
//!
//! `BigUint` and `BigInt` are opaque here. Their contents have a name each,
//! the numbers they hold are defined over those names, and every operation
//! that the library uses is declared with what it does to the numbers. None
//! of these declarations is proved: they restate the documentation of
//! `num_bigint`, `num_integer` and `num_traits`.

use num_bigint::BigInt;
use num_bigint::BigUint;
use num_integer::Integer;
use num_traits::Zero;
use vstd::arithmetic::power::pow;
use vstd::prelude::*;

verus! {

/// `num_bigint::BigUint`, taken as it is: nothing of its inside is seen
/// here.
#[verifier::external_type_specification]
#[verifier::external_body]
pub struct ExBigUint(num_bigint::BigUint);

/// `num_bigint::BigInt`, taken as it is: nothing of its inside is seen
/// here.
#[verifier::external_type_specification]
#[verifier::external_body]
pub struct ExBigInt(num_bigint::BigInt);

/// The base 2^32 digits of a `BigUint`, least significant first, as
/// `BigUint::to_u32_digits` hands them out.
pub uninterp spec fn digits(n: BigUint) -> Seq<u32>;

/// The base 2^32 digits of the magnitude of a `BigInt`, least significant
/// first, as `BigInt::to_u32_digits` hands them out.
pub uninterp spec fn int_digits(n: BigInt) -> Seq<u32>;

/// Whether a `BigInt` is below zero, as `BigInt::sign` tells it.
pub uninterp spec fn int_negative(n: BigInt) -> bool;

/// The number that a sequence of base 2^32 digits stands for, least
/// significant digit first.
pub open spec fn digits_value(d: Seq<u32>) -> nat
    decreases d.len(),
{
    if d.len() == 0 {
        0
    } else {
        d[0] as nat + 0x1_0000_0000 * digits_value(d.drop_first())
    }
}

/// The number that a `BigUint` holds.
pub open spec fn value(n: BigUint) -> nat {
    digits_value(digits(n))
}

/// The number that a `BigInt` holds.
pub open spec fn int_value(n: BigInt) -> int {
    if int_negative(n) {
        -(digits_value(int_digits(n)) as int)
    } else {
        digits_value(int_digits(n)) as int
    }
}

/// The numbers that a sequence of `BigUint` holds, in order.
pub open spec fn values(v: Seq<BigUint>) -> Seq<nat> {
    Seq::new(v.len(), |i: int| value(v[i]))
}

/// The number that a byte string stands for in base 256, most significant
/// byte first. The empty string stands for zero.
pub open spec fn be_value(bytes: Seq<u8>) -> nat
    decreases bytes.len(),
{
    if bytes.len() == 0 {
        0
    } else {
        256 * be_value(bytes.drop_last()) + bytes.last() as nat
    }
}

/// The shortest byte string that stands for `n` in base 256, most significant
/// byte first. It is empty for zero and never starts with a zero byte.
pub open spec fn be_bytes(n: nat) -> Seq<u8>
    decreases n,
{
    if n == 0 {
        Seq::empty()
    } else {
        be_bytes(n / 256).push((n % 256) as u8)
    }
}

/// The number of bits of `n`: zero for zero, else one more than the position
/// of the highest set bit.
pub open spec fn bit_length(n: nat) -> nat
    decreases n,
{
    if n == 0 {
        0
    } else {
        1 + bit_length(n / 2)
    }
}

/// Floored division: the quotient rounded towards minus infinity.
pub open spec fn floor_div(a: int, b: int) -> int {
    if b > 0 {
        a / b
    } else {
        (-a) / (-b)
    }
}

/// Floored remainder: it has the sign of the divisor, and
/// `floor_div(a, b) * b + floor_mod(a, b) == a`.
pub open spec fn floor_mod(a: int, b: int) -> int {
    if b > 0 {
        a % b
    } else {
        -((-a) % (-b))
    }
}

/// Whether a byte is one of the ASCII digits `0` to `9`.
pub open spec fn is_decimal_digit(b: u8) -> bool {
    0x30 <= b <= 0x39
}

/// A decimal numeral without the one `+` that may stand in front of it. A
/// `+` that is followed by another `+` stays.
pub open spec fn without_plus(text: Seq<u8>) -> Seq<u8> {
    if text.len() > 0 && text[0] == 0x2b && !(text.len() > 1 && text[1] == 0x2b) {
        text.drop_first()
    } else {
        text
    }
}

/// Whether `text` is a decimal numeral: an optional `+`, then at least one
/// character, the first of them a digit, all of them digits or `_`.
pub open spec fn is_decimal(text: Seq<u8>) -> bool {
    let t = without_plus(text);
    &&& t.len() > 0
    &&& t[0] != 0x5f
    &&& forall|i: int| 0 <= i < t.len() ==> is_decimal_digit(#[trigger] t[i]) || t[i] == 0x5f
}

/// The number that a string of digits and `_` stands for in base 10; `_` is
/// passed over.
pub open spec fn decimal_digits_value(t: Seq<u8>) -> nat
    decreases t.len(),
{
    if t.len() == 0 {
        0
    } else if t.last() == 0x5f {
        decimal_digits_value(t.drop_last())
    } else {
        10 * decimal_digits_value(t.drop_last()) + (t.last() - 0x30) as nat
    }
}

/// The number that a decimal numeral stands for.
pub open spec fn decimal_value(text: Seq<u8>) -> nat {
    decimal_digits_value(without_plus(text))
}

/// `BigUint::to_u32_digits`: the digits of `n`. The highest digit is not
/// zero, so zero has no digits.
#[verifier::external_body]
pub(crate) fn big_digits(n: &BigUint) -> (r: Vec<u32>)
    ensures
        r@ == digits(*n),
        r@.len() > 0 ==> r@.last() != 0,
{
    n.to_u32_digits()
}

/// `BigUint::from(u128)`: the same number.
#[verifier::external_body]
pub(crate) fn big_from_u128(n: u128) -> (r: BigUint)
    ensures
        value(r) == n,
{
    BigUint::from(n)
}

/// `BigUint::clone`: a copy with the same digits.
#[verifier::external_body]
pub(crate) fn big_clone(a: &BigUint) -> (r: BigUint)
    ensures
        digits(r) == digits(*a),
{
    a.clone()
}

/// `Zero::is_zero` of `BigUint`.
#[verifier::external_body]
pub(crate) fn big_is_zero(a: &BigUint) -> (r: bool)
    ensures
        r == (value(*a) == 0),
{
    a.is_zero()
}

/// `==` of `BigUint`: whether the two hold the same number.
#[verifier::external_body]
pub(crate) fn big_eq(a: &BigUint, b: &BigUint) -> (r: bool)
    ensures
        r == (value(*a) == value(*b)),
{
    a == b
}

/// `<` of `BigUint`: the order of the numbers.
#[verifier::external_body]
pub(crate) fn big_lt(a: &BigUint, b: &BigUint) -> (r: bool)
    ensures
        r == (value(*a) < value(*b)),
{
    a < b
}

/// `&BigUint + &BigUint`: the sum.
#[verifier::external_body]
pub(crate) fn big_add(a: &BigUint, b: &BigUint) -> (r: BigUint)
    ensures
        value(r) == value(*a) + value(*b),
{
    a + b
}

/// `&BigUint - &BigUint`: the difference. The subtraction panics where the
/// result would be negative.
#[verifier::external_body]
pub(crate) fn big_sub(a: &BigUint, b: &BigUint) -> (r: BigUint)
    requires
        value(*a) >= value(*b),
    ensures
        value(r) == value(*a) - value(*b),
{
    a - b
}

/// `&BigUint * &BigUint`: the product.
#[verifier::external_body]
pub(crate) fn big_mul(a: &BigUint, b: &BigUint) -> (r: BigUint)
    ensures
        value(r) == value(*a) * value(*b),
{
    a * b
}

/// `&BigUint / &BigUint`: the quotient, rounded down. The division panics
/// on a zero divisor.
#[verifier::external_body]
pub(crate) fn big_div(a: &BigUint, b: &BigUint) -> (r: BigUint)
    requires
        value(*b) > 0,
    ensures
        value(r) == value(*a) / value(*b),
{
    a / b
}

/// `&BigUint % &BigUint`: the remainder. It panics on a zero divisor.
#[verifier::external_body]
pub(crate) fn big_rem(a: &BigUint, b: &BigUint) -> (r: BigUint)
    requires
        value(*b) > 0,
    ensures
        value(r) == value(*a) % value(*b),
{
    a % b
}

/// `BigUint::modpow`: `base` to the power `exponent`, reduced by `modulus`.
/// It panics on a zero modulus.
#[verifier::external_body]
pub(crate) fn big_modpow(base: &BigUint, exponent: &BigUint, modulus: &BigUint) -> (r: BigUint)
    requires
        value(*modulus) > 0,
    ensures
        value(r) == pow(value(*base) as int, value(*exponent)) % (value(*modulus) as int),
{
    base.modpow(exponent, modulus)
}

/// `BigUint::bits`: the fewest bits that express the number.
#[verifier::external_body]
pub(crate) fn big_bits(a: &BigUint) -> (r: u64)
    ensures
        r == bit_length(value(*a)),
{
    a.bits()
}

/// `BigUint::from_bytes_be`: the number that the bytes stand for in base
/// 256, most significant byte first.
#[verifier::external_body]
pub(crate) fn big_from_bytes_be(bytes: &[u8]) -> (r: BigUint)
    ensures
        value(r) == be_value(bytes@),
{
    BigUint::from_bytes_be(bytes)
}

/// `BigUint::parse_bytes` with radix 10: the number of a decimal numeral,
/// and nothing for any other text.
#[verifier::external_body]
pub(crate) fn big_parse_decimal(text: &[u8]) -> (r: Option<BigUint>)
    ensures
        r is Some <==> is_decimal(text@),
        r matches Some(n) ==> value(n) == decimal_value(text@),
{
    BigUint::parse_bytes(text, 10)
}

/// `BigInt::from(BigUint)`: the same number, which is not negative.
#[verifier::external_body]
pub(crate) fn int_from_big(a: BigUint) -> (r: BigInt)
    ensures
        int_digits(r) == digits(a),
        !int_negative(r),
{
    BigInt::from(a)
}

/// `BigInt::to_biguint`: the same number where it is not negative, else
/// nothing.
#[verifier::external_body]
pub(crate) fn int_to_big(a: &BigInt) -> (r: Option<BigUint>)
    ensures
        r is Some <==> int_value(*a) >= 0,
        r matches Some(n) ==> value(n) == int_value(*a),
{
    a.to_biguint()
}

/// `Zero::is_zero` of `BigInt`.
#[verifier::external_body]
pub(crate) fn int_is_zero(a: &BigInt) -> (r: bool)
    ensures
        r == (int_value(*a) == 0),
{
    a.is_zero()
}

/// `&BigInt - &BigInt`: the difference.
#[verifier::external_body]
pub(crate) fn int_sub(a: &BigInt, b: &BigInt) -> (r: BigInt)
    ensures
        int_value(r) == int_value(*a) - int_value(*b),
{
    a - b
}

/// `&BigInt * &BigInt`: the product.
#[verifier::external_body]
pub(crate) fn int_mul(a: &BigInt, b: &BigInt) -> (r: BigInt)
    ensures
        int_value(r) == int_value(*a) * int_value(*b),
{
    a * b
}

/// `Integer::div_floor` of `BigInt`: the quotient rounded towards minus
/// infinity. It panics on a zero divisor.
#[verifier::external_body]
pub(crate) fn int_div_floor(a: &BigInt, b: &BigInt) -> (r: BigInt)
    requires
        int_value(*b) != 0,
    ensures
        int_value(r) == floor_div(int_value(*a), int_value(*b)),
{
    a.div_floor(b)
}

/// `Integer::mod_floor` of `BigInt`: the remainder that goes with
/// `div_floor`. It panics on a zero divisor.
#[verifier::external_body]
pub(crate) fn int_mod_floor(a: &BigInt, b: &BigInt) -> (r: BigInt)
    requires
        int_value(*b) != 0,
    ensures
        int_value(r) == floor_mod(int_value(*a), int_value(*b)),
{
    a.mod_floor(b)
}

} // verus!

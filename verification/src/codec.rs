//! The secret as bytes and as a number: a byte string is read as a number in
//! base 256, most significant byte first.
//!
//! A number has no leading zeros, so the way back gives the byte string
//! without its leading zero bytes: `[0x00, 0x41]` comes back as `[0x41]`.
//! Byte strings that do not start with a zero byte come back unchanged.

use crate::bignum::{
    be_bytes, be_value, big_add, big_clone, big_digits, big_div, big_from_bytes_be, big_from_u128,
    big_is_zero, big_mul, big_rem, digits_value, value,
};
use crate::error::Error;
use num_bigint::BigUint;
use vstd::prelude::*;
use vstd::string::StringSliceAdditionalSpecFns;
use vstd::utf8::{decode_utf8, valid_utf8};

verus! {

/// A byte string without its leading zero bytes.
pub open spec fn strip_leading_zeros(bytes: Seq<u8>) -> Seq<u8>
    decreases bytes.len(),
{
    if bytes.len() > 0 && bytes[0] == 0 {
        strip_leading_zeros(bytes.drop_first())
    } else {
        bytes
    }
}

/// Whether a byte string does not start with a zero byte.
pub open spec fn no_leading_zero(bytes: Seq<u8>) -> bool {
    bytes.len() == 0 || bytes[0] != 0
}

/// Bytes that start with a byte that is not zero stand for a number that
/// is not zero.
proof fn lemma_be_value_positive(bytes: Seq<u8>)
    requires
        bytes.len() > 0,
        bytes[0] != 0,
    ensures
        be_value(bytes) > 0,
    decreases bytes.len(),
{
    if bytes.len() > 1 {
        lemma_be_value_positive(bytes.drop_last());
    }
}

/// A zero byte in front does not change the number.
proof fn lemma_be_value_leading_zero(bytes: Seq<u8>)
    requires
        bytes.len() > 0,
        bytes[0] == 0,
    ensures
        be_value(bytes) == be_value(bytes.drop_first()),
    decreases bytes.len(),
{
    if bytes.len() == 1 {
        assert(be_value(bytes.drop_last()) == 0);
        assert(bytes.drop_first().len() == 0);
    } else {
        lemma_be_value_leading_zero(bytes.drop_last());
        assert(bytes.drop_first().drop_last() =~= bytes.drop_last().drop_first());
    }
}

/// Without its leading zero bytes a byte string starts with no zero byte
/// and stands for the same number.
proof fn lemma_strip_leading_zeros(bytes: Seq<u8>)
    ensures
        no_leading_zero(strip_leading_zeros(bytes)),
        be_value(strip_leading_zeros(bytes)) == be_value(bytes),
    decreases bytes.len(),
{
    if bytes.len() > 0 && bytes[0] == 0 {
        lemma_strip_leading_zeros(bytes.drop_first());
        lemma_be_value_leading_zero(bytes);
    }
}

/// A byte string that does not start with a zero byte comes back unchanged
/// from the number that it stands for.
pub proof fn lemma_round_trip(bytes: Seq<u8>)
    requires
        no_leading_zero(bytes),
    ensures
        be_bytes(be_value(bytes)) == bytes,
    decreases bytes.len(),
{
    if bytes.len() > 0 {
        let front = bytes.drop_last();
        lemma_be_value_positive(bytes);
        lemma_round_trip(front);
        let v = be_value(bytes);
        assert(v / 256 == be_value(front));
        assert(v % 256 == bytes.last());
        assert(front.push(bytes.last()) =~= bytes);
    }
}

/// Any byte string comes back from the number that it stands for without
/// its leading zero bytes: those are what the number cannot hold.
pub proof fn lemma_round_trip_strips_zeros(bytes: Seq<u8>)
    ensures
        be_bytes(be_value(bytes)) == strip_leading_zeros(bytes),
{
    lemma_strip_leading_zeros(bytes);
    lemma_round_trip(strip_leading_zeros(bytes));
}

/// The bytes of a number stand for that number.
pub proof fn lemma_be_bytes_value(n: nat)
    ensures
        be_value(be_bytes(n)) == n,
        no_leading_zero(be_bytes(n)),
    decreases n,
{
    if n > 0 {
        lemma_be_bytes_value(n / 256);
        let front = be_bytes(n / 256);
        let all = be_bytes(n);
        assert(all.drop_last() =~= front);
        if n / 256 > 0 {
            assert(front.len() > 0) by {
                if front.len() == 0 {
                    assert(be_value(front) == 0);
                }
            }
            assert(all[0] == front[0]);
        }
    }
}

/// Digits with a highest digit that is not zero stand for a number that is
/// not zero.
proof fn lemma_digits_value_positive(d: Seq<u32>)
    requires
        d.len() > 0,
        d.last() != 0,
    ensures
        digits_value(d) > 0,
    decreases d.len(),
{
    if d.len() > 1 {
        assert(d.drop_first().last() == d.last());
        lemma_digits_value_positive(d.drop_first());
    }
}

/// A number below 256 as a byte.
fn low_byte(n: &BigUint) -> (r: u8)
    requires
        value(*n) < 256,
    ensures
        r == value(*n),
{
    let d = big_digits(n);
    if d.len() == 0 {
        0
    } else {
        proof {
            if d@.len() > 1 {
                assert(d@.drop_first().last() == d@.last());
                lemma_digits_value_positive(d@.drop_first());
            } else {
                assert(digits_value(d@.drop_first()) == 0);
            }
        }
        d[0] as u8
    }
}

/// The bytes of `v` in the opposite order.
fn reversed(v: &Vec<u8>) -> (r: Vec<u8>)
    ensures
        r@ == v@.reverse(),
{
    let mut out: Vec<u8> = Vec::new();
    let mut i: usize = v.len();
    while i > 0
        invariant
            i <= v@.len(),
            out@.len() == v@.len() - i,
            forall|k: int| 0 <= k < out@.len() ==> out@[k] == v@[v@.len() - 1 - k],
        decreases i,
    {
        i = i - 1;
        out.push(v[i]);
    }
    proof {
        assert(out@ =~= v@.reverse());
    }
    out
}

/// `String::from_utf8`: the text of the bytes where they are UTF-8, else
/// nothing.
#[verifier::external_body]
fn string_from_utf8(bytes: Vec<u8>) -> (r: Option<String>)
    ensures
        r is Some <==> valid_utf8(bytes@),
        r matches Some(s) ==> s@ == decode_utf8(bytes@),
{
    String::from_utf8(bytes).ok()
}

/// The number that a byte string stands for in base 256, most significant
/// byte first.
pub fn encode(bytes: &[u8]) -> (r: BigUint)
    ensures
        value(r) == be_value(bytes@),
{
    big_from_bytes_be(bytes)
}

/// The shortest byte string that stands for `n`: empty for zero, else
/// without a leading zero byte.
pub fn decode(n: &BigUint) -> (r: Vec<u8>)
    ensures
        r@ == be_bytes(value(*n)),
{
    let radix = big_from_u128(256);
    let mut rest = big_clone(n);
    let mut low_first: Vec<u8> = Vec::new();
    proof {
        assert(be_bytes(value(*n)) =~= be_bytes(value(rest)) + low_first@.reverse());
    }
    while !big_is_zero(&rest)
        invariant
            value(radix) == 256,
            be_bytes(value(*n)) == be_bytes(value(rest)) + low_first@.reverse(),
        decreases value(rest),
    {
        let byte = low_byte(&big_rem(&rest, &radix));
        let next = big_div(&rest, &radix);
        proof {
            let before = low_first@;
            let after = before.push(byte);
            assert(after.reverse() =~= seq![byte] + before.reverse());
            assert(be_bytes(value(rest)) == be_bytes(value(next)).push(byte));
            assert(be_bytes(value(rest)) + before.reverse() =~= be_bytes(value(next))
                + after.reverse());
        }
        low_first.push(byte);
        rest = next;
    }
    let out = reversed(&low_first);
    proof {
        assert(be_bytes(value(rest)).len() == 0);
        assert(be_bytes(value(*n)) =~= low_first@.reverse());
    }
    out
}

/// The number that the bytes of a text stand for in base 256: each byte in
/// turn is added to 256 times the number so far.
pub fn string_to_biguint(s: &str) -> (r: BigUint)
    ensures
        value(r) == be_value(s.spec_bytes()),
{
    let bytes = s.as_bytes();
    let radix = big_from_u128(256);
    let mut result = big_from_u128(0);
    let n = bytes.len();
    let mut i: usize = 0;
    proof {
        assert(bytes@.take(0).len() == 0);
    }
    while i < n
        invariant
            i <= n,
            n == bytes@.len(),
            value(radix) == 256,
            value(result) == be_value(bytes@.take(i as int)),
        decreases n - i,
    {
        let shifted = big_mul(&result, &radix);
        let next = big_add(&shifted, &big_from_u128(bytes[i] as u128));
        proof {
            assert(bytes@.take(i + 1).drop_last() =~= bytes@.take(i as int));
            assert(value(result) * 256 == 256 * value(result)) by (nonlinear_arith);
        }
        result = next;
        i = i + 1;
    }
    proof {
        assert(bytes@.take(n as int) =~= bytes@);
    }
    result
}

/// The text whose bytes stand for `n` in base 256, or
/// `InvalidUtf8Secret` where those bytes are not UTF-8. The number itself is
/// untouched by the failure: `decode` still gives its bytes.
pub fn biguint_to_string(n: &BigUint) -> (r: Result<String, Error>)
    ensures
        r is Ok <==> valid_utf8(be_bytes(value(*n))),
        r matches Ok(s) ==> s@ == decode_utf8(be_bytes(value(*n))),
        r matches Err(e) ==> e == Error::InvalidUtf8Secret,
{
    match string_from_utf8(decode(n)) {
        Some(s) => Ok(s),
        None => Err(Error::InvalidUtf8Secret),
    }
}

} // verus!

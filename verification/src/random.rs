//! Random field elements from the random source of the operating system, by
//! rejection sampling.

use crate::bignum::{
    be_value, big_bits, big_from_bytes_be, big_from_u128, big_is_zero, big_lt, big_mul, big_rem,
    bit_length, value,
};
use num_bigint::BigUint;
use rand::rngs::OsRng;
use rand::RngCore;
use vstd::arithmetic::power::{lemma_pow0, lemma_pow1, lemma_pow_adds, lemma_pow_positive, pow};
use vstd::prelude::*;

verus! {

/// How often a number is drawn before the source counts as failed. A draw
/// is turned down with a probability of at most three in four, which is
/// what it is for a limit of 2, and of about one in two for a large limit;
/// so this many in a row do not happen by chance.
pub const MAX_DRAWS: u32 = 256;

/// The longest limit, in bits, that a number is drawn for: the buffer for
/// it still has a length that every machine can hold.
pub const MAX_LIMIT_BITS: u64 = 0xffff_fff0;

/// The number that the drawn bytes give for a limit: the bytes read in base
/// 256, most significant byte first, without the bits above the bit length
/// of the limit.
pub open spec fn candidate_value(drawn: Seq<u8>, limit: nat) -> int {
    (be_value(drawn) as int) % pow(2, bit_length(limit))
}

/// How many bytes are drawn for a limit: as many as hold the bits of the
/// limit.
pub open spec fn buffer_len(limit: nat) -> nat {
    (bit_length(limit) + 7) / 8
}

/// Whether `c` is the candidate of some bytes that can be drawn for
/// `limit`: of a buffer of `buffer_len` bytes, whatever they are.
pub open spec fn is_drawn_candidate(c: nat, limit: nat) -> bool {
    exists|drawn: Seq<u8>|
        #![trigger candidate_value(drawn, limit)]
        drawn.len() == buffer_len(limit) && c == candidate_value(drawn, limit)
}

/// `OsRng::try_fill_bytes`: fills the buffer with random bytes and tells
/// whether the source worked. The length of the buffer stays.
#[verifier::external_body]
fn os_fill(buf: &mut Vec<u8>) -> (ok: bool)
    ensures
        final(buf)@.len() == old(buf)@.len(),
{
    OsRng.try_fill_bytes(buf.as_mut_slice()).is_ok()
}

/// Two to the power `bits`.
fn power_of_two(bits: u64) -> (r: BigUint)
    ensures
        value(r) == pow(2, bits as nat),
{
    let two = big_from_u128(2);
    let mut r = big_from_u128(1);
    let mut i: u64 = 0;
    proof {
        lemma_pow0(2);
    }
    while i < bits
        invariant
            i <= bits,
            value(two) == 2,
            value(r) == pow(2, i as nat),
        decreases bits - i,
    {
        proof {
            lemma_pow_adds(2, i as nat, 1);
            lemma_pow1(2);
        }
        r = big_mul(&r, &two);
        i = i + 1;
    }
    r
}

/// The candidate that drawn bytes give for `limit`, where it is usable: not
/// zero and below `limit`. Any other candidate is turned down, so that no
/// number is more likely than another.
pub fn candidate_below(drawn: &[u8], limit: &BigUint) -> (r: Option<BigUint>)
    ensures
        r is Some <==> 0 < candidate_value(drawn@, value(*limit)) < value(*limit),
        r matches Some(c) ==> value(c) == candidate_value(drawn@, value(*limit)),
{
    let bound = power_of_two(big_bits(limit));
    proof {
        lemma_pow_positive(2, bit_length(value(*limit)));
    }
    let candidate = big_rem(&big_from_bytes_be(drawn), &bound);
    if !big_is_zero(&candidate) && big_lt(&candidate, limit) {
        Some(candidate)
    } else {
        None
    }
}

/// A random number in `[1, limit)`, or `None` where there is none (`limit`
/// is below 2), where `limit` has more than `MAX_LIMIT_BITS` bits, for which
/// nothing is drawn, or where the random source fails.
///
/// Bytes for the bit length of `limit` are drawn from the operating system
/// until `candidate_below` takes them, at most `MAX_DRAWS` times. The number
/// returned is the candidate of the bytes of one draw. Whether there is one
/// lies with the source: it can fail, and it can give bytes that are turned
/// down every time.
pub fn random_biguint_below(limit: &BigUint) -> (r: Option<BigUint>)
    ensures
        value(*limit) < 2 ==> r is None,
        bit_length(value(*limit)) > MAX_LIMIT_BITS ==> r is None,
        r matches Some(c) ==> 0 < value(c) < value(*limit),
        r matches Some(c) ==> is_drawn_candidate(value(c), value(*limit)),
{
    let bits = big_bits(limit);
    if bits > MAX_LIMIT_BITS {
        return None;
    }
    let len: u64 = (bits + 7) / 8;
    let mut buf: Vec<u8> = Vec::new();
    let mut filled: u64 = 0;
    while filled < len
        invariant
            filled <= len,
            buf@.len() == filled,
        decreases len - filled,
    {
        buf.push(0);
        filled = filled + 1;
    }
    let mut draws: u32 = 0;
    while draws < MAX_DRAWS
        invariant
            draws <= MAX_DRAWS,
            bit_length(value(*limit)) <= MAX_LIMIT_BITS,
            buf@.len() == buffer_len(value(*limit)),
        decreases MAX_DRAWS - draws,
    {
        if !os_fill(&mut buf) {
            return None;
        }
        match candidate_below(buf.as_slice(), limit) {
            Some(c) => {
                proof {
                    assert(value(c) == candidate_value(buf@, value(*limit)));
                }
                return Some(c);
            },
            None => {},
        }
        draws = draws + 1;
    }
    None
}

} // verus!

//! The command that splits a secret.

use crate::bignum::{be_value, value};
use crate::codec::encode;
use crate::dealer::{dealing_failure, dealing_refused, is_dealt, split};
use crate::error::Error;
use crate::params::FieldParameters;
use num_bigint::BigUint;
use vstd::prelude::*;
use vstd::utf8::encode_utf8;

verus! {

/// What a split gives: the shares, and the commitments to the polynomial
/// that they come from.
pub struct Dealing {
    pub shares: Vec<(BigUint, BigUint)>,
    pub commitments: Vec<BigUint>,
}

/// Whether `r` is a right end of the command: a dealing of the number that
/// the bytes of `secret` stand for, or the error that such a dealing fails
/// with. It is an error where the dealing must fail, and a dealing where the
/// threshold is 1 and the dealing need not fail.
pub open spec fn meets(secret: Seq<char>, n: nat, k: nat, p: nat, q: nat, g: nat, r: Result<
    Dealing,
    Error,
>) -> bool {
    let number = be_value(encode_utf8(secret));
    &&& r matches Ok(d) ==> is_dealt(d.shares@, d.commitments@, number, n, k, g, p, q)
    &&& r matches Err(e) ==> dealing_failure(e, number, n, k, q)
    &&& dealing_refused(number, n, k, q) ==> r is Err
    &&& k == 1 && !dealing_refused(number, n, k, q) ==> r is Ok
}

/// Splits the secret, read as a number in base 256, into `n` shares with
/// the threshold `k`.
pub fn execute(secret: String, n: usize, k: usize, params: &FieldParameters) -> (r: Result<
    Dealing,
    Error,
>)
    requires
        value(params.p) > 0,
    ensures
        meets(
            secret@,
            n as nat,
            k as nat,
            value(params.p),
            value(params.q),
            value(params.g),
            r,
        ),
{
    let secret_num = encode(secret.as_str().as_bytes());
    match split(&secret_num, n as u64, k as u64, &params.g, &params.p, &params.q) {
        Ok(dealt) => Ok(Dealing { shares: dealt.0, commitments: dealt.1 }),
        Err(e) => Err(e),
    }
}

} // verus!

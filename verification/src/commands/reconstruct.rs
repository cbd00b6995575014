//! The command that reconstructs the secret.

use crate::bignum::{be_bytes, value};
use crate::codec::biguint_to_string;
use crate::error::Error;
use crate::lagrange::{denominators_invertible, interpolate, interpolate_at_zero};
use crate::params::FieldParameters;
use crate::text::{are_shares, parse_shares, text_xs, text_ys};
use num_bigint::BigUint;
use vstd::prelude::*;
use vstd::utf8::{decode_utf8, encode_utf8, valid_utf8};

verus! {

/// What a reconstruction gives: the secret as a number and, where its bytes
/// are UTF-8, as text. Where they are not, `text` is `InvalidUtf8Secret` and
/// the number stands as it is.
pub struct Recovered {
    pub secret: BigUint,
    pub text: Result<String, Error>,
}

/// Whether `rec` holds the number `secret` and what its bytes are as text.
pub open spec fn holds(rec: Recovered, secret: int) -> bool {
    let bytes = be_bytes(value(rec.secret));
    &&& value(rec.secret) == secret
    &&& rec.text is Ok <==> valid_utf8(bytes)
    &&& rec.text matches Ok(s) ==> s@ == decode_utf8(bytes)
    &&& rec.text matches Err(e) ==> e == Error::InvalidUtf8Secret
}

/// Whether `r` is the right end of the command: `MalformedShare` where
/// `shares` is no list of shares, else `NonInvertibleDenominator` where a
/// denominator of the interpolation has no inverse modulo `q`, else the
/// value at zero of the polynomial through the shares.
pub open spec fn meets(shares: Seq<char>, q: nat, r: Result<Recovered, Error>) -> bool {
    let text = encode_utf8(shares);
    let xs = text_xs(text);
    let ys = text_ys(text);
    &&& r is Ok <==> are_shares(text) && denominators_invertible(xs, q as int)
    &&& r matches Err(e) ==> {
        &&& e == Error::MalformedShare <==> !are_shares(text)
        &&& e == Error::NonInvertibleDenominator <==> are_shares(text)
    }
    &&& r matches Ok(rec) ==> holds(rec, interpolate_at_zero(xs, ys, q as int))
}

/// Reconstructs the secret from the shares in `shares`, modulo `q`.
pub fn with_modulus(shares: String, q: &BigUint) -> (r: Result<Recovered, Error>)
    requires
        value(*q) > 0,
    ensures
        meets(shares@, value(*q), r),
{
    let share_list = match parse_shares(shares.as_str().as_bytes()) {
        Ok(v) => v,
        Err(e) => {
            return Err(e);
        },
    };
    let secret = match interpolate(share_list.as_slice(), q) {
        Ok(v) => v,
        Err(e) => {
            return Err(e);
        },
    };
    let text = biguint_to_string(&secret);
    Ok(Recovered { secret, text })
}

/// Reconstructs the secret from the shares in `shares`, modulo the `q` of
/// the parameters.
pub fn execute(shares: String, params: &FieldParameters) -> (r: Result<Recovered, Error>)
    requires
        value(params.q) > 0,
    ensures
        meets(shares@, value(params.q), r),
{
    with_modulus(shares, &params.q)
}

} // verus!

//! The command that checks a secret against the commitments.

use crate::bignum::{be_value, value, values};
use crate::codec::encode;
use crate::error::Error;
use crate::feldman::{secret_verifies, verify_secret};
use crate::params::FieldParameters;
use crate::text::{
    are_commitments, lemma_split_on_nonempty, parse_commitments, text_commitments,
    NUMBER_SEPARATOR,
};
use vstd::prelude::*;
use vstd::utf8::encode_utf8;

verus! {

/// Whether `r` is the right end of the command: `MalformedCommitment` where
/// `commitments` is no list of numbers, else whether the number that the
/// bytes of `secret` stand for agrees with the first commitment.
pub open spec fn meets(secret: Seq<char>, commitments: Seq<char>, p: nat, g: nat, r: Result<
    bool,
    Error,
>) -> bool {
    let text = encode_utf8(commitments);
    &&& r is Ok <==> are_commitments(text)
    &&& r matches Ok(b) ==> b == secret_verifies(
        be_value(encode_utf8(secret)),
        text_commitments(text)[0],
        g,
        p,
    )
    &&& r matches Err(e) ==> e == Error::MalformedCommitment
}

/// Checks the secret, read as a number in base 256, against the first of
/// the commitments.
pub fn execute(secret: String, commitments: String, params: &FieldParameters) -> (r: Result<
    bool,
    Error,
>)
    requires
        value(params.p) > 0,
    ensures
        meets(secret@, commitments@, value(params.p), value(params.g), r),
{
    let secret_num = encode(secret.as_str().as_bytes());
    let commitment_list = match parse_commitments(commitments.as_str().as_bytes()) {
        Ok(v) => v,
        Err(e) => {
            return Err(e);
        },
    };
    proof {
        lemma_split_on_nonempty(encode_utf8(commitments@), NUMBER_SEPARATOR);
        assert(values(commitment_list@).len() == commitment_list@.len());
        assert(values(commitment_list@)[0] == value(commitment_list@[0]));
    }
    Ok(verify_secret(&secret_num, &commitment_list[0], &params.g, &params.p))
}

} // verus!

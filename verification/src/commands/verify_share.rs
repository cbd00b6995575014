//! The command that checks shares against the commitments.

use crate::bignum::{value, values};
use crate::error::Error;
use crate::feldman::{
    is_check_of, share_verifies, verify_all, verify_share_verbose, ShareCheck,
};
use crate::lagrange::{share_xs, share_ys};
use crate::params::FieldParameters;
use crate::text::{
    are_commitments, are_shares, parse_commitments, parse_shares, text_commitments, text_xs,
    text_ys,
};
use vstd::prelude::*;
use vstd::utf8::encode_utf8;

verus! {

/// What the command gives: for each share whether it passed and, where the
/// steps were asked for, the steps of its check.
pub struct Verification {
    pub valid: Vec<bool>,
    pub checks: Vec<ShareCheck>,
}

/// Whether `r` is the right end of the command: `MalformedShare` where
/// `share` is no list of shares, else `MalformedCommitment` where
/// `commitments` is no list of numbers, else for each share whether it
/// agrees with the commitments, and with `verbose` its check.
pub open spec fn meets(
    share: Seq<char>,
    commitments: Seq<char>,
    verbose: bool,
    p: nat,
    q: nat,
    g: nat,
    r: Result<Verification, Error>,
) -> bool {
    let st = encode_utf8(share);
    let ct = encode_utf8(commitments);
    let xs = text_xs(st);
    let ys = text_ys(st);
    let cs = text_commitments(ct);
    &&& r is Ok <==> are_shares(st) && are_commitments(ct)
    &&& r matches Err(e) ==> {
        &&& e == Error::MalformedShare <==> !are_shares(st)
        &&& e == Error::MalformedCommitment <==> are_shares(st)
    }
    &&& r matches Ok(v) ==> {
        &&& v.valid@.len() == xs.len()
        &&& forall|i: int|
            0 <= i < xs.len() ==> #[trigger] v.valid@[i] == share_verifies(
                xs[i],
                ys[i],
                cs,
                g,
                p,
                q,
            )
        &&& v.checks@.len() == if verbose {
            xs.len()
        } else {
            0
        }
        &&& forall|i: int|
            0 <= i < v.checks@.len() ==> is_check_of(
                #[trigger] v.checks@[i],
                xs[i],
                ys[i],
                cs,
                g,
                p,
                q,
            )
    }
}

/// Checks each of the shares in `share` against the commitments.
pub fn execute(share: String, commitments: String, verbose: bool, params: &FieldParameters) -> (r:
    Result<Verification, Error>)
    requires
        value(params.p) > 0,
        value(params.q) > 0,
    ensures
        meets(
            share@,
            commitments@,
            verbose,
            value(params.p),
            value(params.q),
            value(params.g),
            r,
        ),
{
    let share_list = match parse_shares(share.as_str().as_bytes()) {
        Ok(v) => v,
        Err(e) => {
            return Err(e);
        },
    };
    let commitment_list = match parse_commitments(commitments.as_str().as_bytes()) {
        Ok(v) => v,
        Err(e) => {
            return Err(e);
        },
    };
    let ghost xs = share_xs(share_list@);
    let ghost ys = share_ys(share_list@);
    let ghost cs = values(commitment_list@);
    let valid = verify_all(
        share_list.as_slice(),
        commitment_list.as_slice(),
        &params.g,
        &params.p,
        &params.q,
    );
    let mut checks: Vec<ShareCheck> = Vec::new();
    if verbose {
        let n = share_list.len();
        let mut i: usize = 0;
        while i < n
            invariant
                i <= n,
                n == share_list@.len(),
                value(params.p) > 0,
                value(params.q) > 0,
                xs == share_xs(share_list@),
                ys == share_ys(share_list@),
                cs == values(commitment_list@),
                checks@.len() == i,
                forall|k: int|
                    0 <= k < i ==> is_check_of(
                        #[trigger] checks@[k],
                        xs[k],
                        ys[k],
                        cs,
                        value(params.g),
                        value(params.p),
                        value(params.q),
                    ),
            decreases n - i,
        {
            let check = verify_share_verbose(
                &share_list[i].0,
                &share_list[i].1,
                commitment_list.as_slice(),
                &params.g,
                &params.p,
                &params.q,
            );
            checks.push(check);
            i = i + 1;
        }
    }
    Ok(Verification { valid, checks })
}

} // verus!

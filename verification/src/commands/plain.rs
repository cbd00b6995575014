//! The commands of plain sharing: no commitments, and a prime that the
//! caller names.

use crate::bignum::{be_value, big_from_u128};
use crate::cli::Commands;
use crate::codec::string_to_biguint;
use crate::commands::reconstruct;
use crate::dealer::{are_dealt_shares, dealing_failure, dealing_refused, generate_shares};
use crate::error::Error;
use num_bigint::BigUint;
use vstd::prelude::*;
use vstd::utf8::encode_utf8;

verus! {

/// What a command of plain sharing gives.
pub enum PlainOutcome {
    Split(Vec<(BigUint, BigUint)>),
    Reconstructed(reconstruct::Recovered),
}

/// Whether `r` is a right end of a split of the number that the bytes of
/// `secret` stand for: its shares, or the error that the dealing fails
/// with.
pub open spec fn split_meets(secret: Seq<char>, n: nat, k: nat, p: nat, r: Result<
    PlainOutcome,
    Error,
>) -> bool {
    let number = be_value(encode_utf8(secret));
    &&& r matches Ok(o) ==> o matches PlainOutcome::Split(shares) && are_dealt_shares(
        shares@,
        number,
        n,
        k,
        p,
    )
    &&& r matches Err(e) ==> dealing_failure(e, number, n, k, p)
    &&& dealing_refused(number, n, k, p) ==> r is Err
    &&& k == 1 && !dealing_refused(number, n, k, p) ==> r is Ok
}

/// Whether `r` is a right end of `cmd`.
pub open spec fn meets(cmd: Commands, r: Result<PlainOutcome, Error>) -> bool {
    match cmd {
        Commands::Split { secret, n, k, p } => split_meets(
            secret@,
            n as nat,
            k as nat,
            p as nat,
            r,
        ),
        Commands::Reconstruct { prime, shares } => match r {
            Ok(PlainOutcome::Reconstructed(rec)) => reconstruct::meets(
                shares@,
                prime as nat,
                Ok(rec),
            ),
            Err(e) => reconstruct::meets(shares@, prime as nat, Err(e)),
            _ => false,
        },
    }
}

/// Carries out a command of plain sharing. A reconstruction takes a
/// modulus above zero.
pub fn execute(cmd: Commands) -> (r: Result<PlainOutcome, Error>)
    requires
        cmd matches Commands::Reconstruct { prime, .. } ==> prime > 0,
    ensures
        meets(cmd, r),
{
    match cmd {
        Commands::Split { secret, n, k, p } => {
            let secret_num = string_to_biguint(secret.as_str());
            let prime = big_from_u128(p);
            match generate_shares(&secret_num, n, k, &prime) {
                Ok(shares) => Ok(PlainOutcome::Split(shares)),
                Err(e) => Err(e),
            }
        },
        Commands::Reconstruct { prime, shares } => {
            match reconstruct::with_modulus(shares, &big_from_u128(prime)) {
                Ok(rec) => Ok(PlainOutcome::Reconstructed(rec)),
                Err(e) => Err(e),
            }
        },
    }
}

} // verus!

//! The commands of the program, carried out on the built-in parameters.
//! Each returns what the shell then prints.

pub mod plain;
pub mod reconstruct;
pub mod split;
pub mod verify_secret;
pub mod verify_share;

use crate::cli::Command;
use crate::error::Error;
use crate::params::{fixed_g, fixed_p, fixed_q, get_fixed_params, FieldParameters};
use vstd::prelude::*;

verus! {

/// What a command gives.
pub enum Outcome {
    Split(split::Dealing),
    SecretVerified(bool),
    SharesVerified(verify_share::Verification),
    Reconstructed(reconstruct::Recovered),
}

/// Whether `r` is a right end of `cmd` on the built-in parameters: it is of
/// the kind of the command, and what the command's own `meets` asks for.
pub open spec fn meets(cmd: Command, r: Result<Outcome, Error>) -> bool {
    match cmd {
        Command::Split { secret, n, k } => match r {
            Ok(Outcome::Split(d)) => split::meets(
                secret@,
                n as nat,
                k as nat,
                fixed_p(),
                fixed_q(),
                fixed_g(),
                Ok(d),
            ),
            Err(e) => split::meets(
                secret@,
                n as nat,
                k as nat,
                fixed_p(),
                fixed_q(),
                fixed_g(),
                Err(e),
            ),
            _ => false,
        },
        Command::VerifySecret { secret, commitments } => match r {
            Ok(Outcome::SecretVerified(b)) => verify_secret::meets(
                secret@,
                commitments@,
                fixed_p(),
                fixed_g(),
                Ok(b),
            ),
            Err(e) => verify_secret::meets(secret@, commitments@, fixed_p(), fixed_g(), Err(e)),
            _ => false,
        },
        Command::VerifyShare { share, commitments, verbose } => match r {
            Ok(Outcome::SharesVerified(v)) => verify_share::meets(
                share@,
                commitments@,
                verbose,
                fixed_p(),
                fixed_q(),
                fixed_g(),
                Ok(v),
            ),
            Err(e) => verify_share::meets(
                share@,
                commitments@,
                verbose,
                fixed_p(),
                fixed_q(),
                fixed_g(),
                Err(e),
            ),
            _ => false,
        },
        Command::Reconstruct { shares } => match r {
            Ok(Outcome::Reconstructed(rec)) => reconstruct::meets(shares@, fixed_q(), Ok(rec)),
            Err(e) => reconstruct::meets(shares@, fixed_q(), Err(e)),
            _ => false,
        },
    }
}

/// Carries out `cmd` on the built-in parameters.
pub fn execute(cmd: Command) -> (r: Result<Outcome, Error>)
    ensures
        meets(cmd, r),
{
    let (p, q, g) = get_fixed_params();
    let params = FieldParameters { p, q, g };
    match cmd {
        Command::Split { secret, n, k } => {
            match split::execute(secret, n, k, &params) {
                Ok(d) => Ok(Outcome::Split(d)),
                Err(e) => Err(e),
            }
        },
        Command::VerifySecret { secret, commitments } => {
            match verify_secret::execute(secret, commitments, &params) {
                Ok(b) => Ok(Outcome::SecretVerified(b)),
                Err(e) => Err(e),
            }
        },
        Command::VerifyShare { share, commitments, verbose } => {
            match verify_share::execute(share, commitments, verbose, &params) {
                Ok(v) => Ok(Outcome::SharesVerified(v)),
                Err(e) => Err(e),
            }
        },
        Command::Reconstruct { shares } => {
            match reconstruct::execute(shares, &params) {
                Ok(rec) => Ok(Outcome::Reconstructed(rec)),
                Err(e) => Err(e),
            }
        },
    }
}

} // verus!

//! The commands of the program, as the shell hands them over.

use vstd::prelude::*;

verus! {

/// The arguments of a run: the command to carry out.
pub struct Args {
    pub cmd: Command,
}

/// A command with its arguments, all of them still text.
pub enum Command {
    /// Split `secret` into `n` shares with the threshold `k`.
    Split { secret: String, n: usize, k: usize },
    /// Check `secret` against the first of the `commitments`.
    VerifySecret { secret: String, commitments: String },
    /// Check one or more shares against the `commitments`; with `verbose`,
    /// keep the steps of each check.
    VerifyShare { share: String, commitments: String, verbose: bool },
    /// Reconstruct the secret from `shares`.
    Reconstruct { shares: String },
}

/// A command of plain sharing, without commitments, modulo a prime that the
/// caller names.
pub enum Commands {
    /// Split `secret` into `n` shares with the threshold `k`, modulo `p`.
    Split { secret: String, n: u32, k: u32, p: u128 },
    /// Reconstruct the secret from `shares`, modulo `prime`.
    Reconstruct { prime: u128, shares: String },
}

} // verus!

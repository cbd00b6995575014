//! The conditions that the library reports to its caller.

use vstd::prelude::*;

verus! {

/// What can go wrong in an operation. A share or a secret that fails its
/// verification is no error: verification returns `false` for it.
#[derive(Clone, Copy, Debug, PartialEq, Eq, Structural)]
pub enum Error {
    /// The threshold `k` is zero or above the number of shares `n`, or `n`
    /// is zero.
    InvalidThreshold,
    /// The secret, read as a number, is not below the modulus.
    SecretTooLarge,
    /// The text of a share is not two integers with a comma between them.
    MalformedShare,
    /// The text of a list of commitments is not integers with commas between
    /// them.
    MalformedCommitment,
    /// A denominator of the interpolation has no inverse: two shares have
    /// the same `x`, or the modulus is not prime.
    NonInvertibleDenominator,
    /// The bytes of the reconstructed secret are not UTF-8 text.
    InvalidUtf8Secret,
    /// The random source gave no usable number.
    RandomSourceFailed,
}

} // verus!

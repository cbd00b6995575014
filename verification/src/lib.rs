//! Threshold secret sharing over a prime field, with Feldman commitments.
//!
//! A dealer splits a secret into `n` shares so that any `k` of them give it
//! back (`dealer`, `polynomial`, `random`). Fewer tell nothing of it where
//! the coefficients are drawn from the whole field; the dealer's own source
//! draws no zero, and `secrecy` says what that costs.
//! Shares are put together again by Lagrange interpolation at zero
//! (`lagrange`). With Feldman's commitments to the dealer's polynomial each
//! holder can check a share without learning the secret (`feldman`). The
//! secret itself is a byte string read as a number (`codec`).
//!
//! All numbers are `num_bigint::BigUint`; `bignum` says what the library
//! takes for granted of them, and `field` builds the arithmetic modulo a
//! number on that. `cli`, `commands` and `text` are the commands of the
//! program and the text form of their arguments, without any input or
//! output.
//!
//! What the scheme promises is proved in `recovery` (any `k` shares give the
//! secret back, and a changed share changes the result), `secrecy` (fewer
//! shares fit every secret, over polynomials with coefficients from the
//! whole field), `feldman` (right shares pass the check, changed ones fail
//! it), `generator` and `certificate` (the built-in parameters are valid:
//! the generator has the order of its group, and both moduli are primes, by
//! the criterion of `primality`), `fermat` (the inverse by Fermat's little
//! theorem) and `codec` (bytes come back from their number).

pub mod bignum;
pub mod certificate;
pub mod cli;
pub mod codec;
pub mod commands;
pub mod dealer;
pub mod error;
pub mod feldman;
pub mod fermat;
pub mod field;
pub mod generator;
pub mod lagrange;
pub mod params;
pub mod polynomial;
pub mod primality;
pub mod random;
pub mod recovery;
pub mod secrecy;
pub mod series;
pub mod text;

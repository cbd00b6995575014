//! The parameters of the field and of the commitment group.

use crate::bignum::{big_add, big_from_u128, big_mul, value};
use crate::feldman::has_order_dividing;
use crate::field::is_prime;
use crate::certificate::{lemma_fixed_modulus_prime, lemma_fixed_order_prime};
use crate::generator::lemma_fixed_generator_order;
use num_bigint::BigUint;
use vstd::arithmetic::div_mod::lemma_small_mod;
use vstd::prelude::*;

verus! {

/// The parameters of a run: the modulus `p` of the commitments, the order
/// `q` of the commitment group, which is the modulus of the shares, and the
/// generator `g` of that group. Plain sharing without commitments uses `q`
/// alone.
pub struct FieldParameters {
    pub p: BigUint,
    pub q: BigUint,
    pub g: BigUint,
}

impl FieldParameters {
    /// What the scheme needs of its parameters: `p` and `q` are primes and
    /// `g` has order `q` modulo `p`, which is to say that `g^q` is 1 and `g`
    /// is not.
    pub open spec fn valid(&self) -> bool {
        &&& is_prime(value(self.p))
        &&& is_prime(value(self.q))
        &&& value(self.g) % value(self.p) != 1
        &&& has_order_dividing(value(self.g), value(self.q), value(self.p))
    }
}

/// Valid parameters are what the laws of the commitments ask for: `g^q` is
/// 1 modulo `p`, `g` is not, and neither modulus is zero.
pub proof fn lemma_valid_parameters(params: FieldParameters)
    requires
        params.valid(),
    ensures
        value(params.p) > 0,
        value(params.q) > 0,
        has_order_dividing(value(params.g), value(params.q), value(params.p)),
        (value(params.g) as int) % (value(params.p) as int) != 1int % (value(params.p) as int),
{
    lemma_small_mod(1, value(params.p));
}

/// The order of the built-in group, a prime of 127 bits.
pub open spec fn fixed_q() -> nat {
    170141183460469171114957017901932292919
}

/// The modulus of the built-in group: the prime `2 * q + 1`, of 128 bits.
pub open spec fn fixed_p() -> nat {
    340282366920938342229914035803864585839
}

/// The generator of the built-in group.
pub open spec fn fixed_g() -> nat {
    2
}

/// The built-in parameters are valid: `p` and `q` are primes and `g` has the
/// order `q` modulo `p`.
pub proof fn lemma_fixed_parameters_valid()
    ensures
        is_prime(fixed_p()),
        is_prime(fixed_q()),
        fixed_p() == 2 * fixed_q() + 1,
        1 < fixed_g() < fixed_p(),
        fixed_g() % fixed_p() != 1,
        has_order_dividing(fixed_g(), fixed_q(), fixed_p()),
{
    lemma_fixed_order_prime();
    lemma_fixed_modulus_prime();
    lemma_fixed_generator_order();
    lemma_small_mod(1, fixed_p());
}

/// The built-in parameters `(p, q, g)`: `q` is a prime of 127 bits, `p` is
/// the prime `2 * q + 1`, and `g` is 2, which has the order `q` modulo `p`.
/// Every call gives the same three numbers, and they are `valid`.
///
/// All of it is proved: that `g^q` is 1 modulo `p` in `generator`, and that
/// `p` and `q` are primes in `certificate`.
pub fn get_fixed_params() -> (r: (BigUint, BigUint, BigUint))
    ensures
        value(r.0) == fixed_p(),
        value(r.1) == fixed_q(),
        value(r.2) == fixed_g(),
        value(r.0) == 2 * value(r.1) + 1,
        is_prime(value(r.0)),
        is_prime(value(r.1)),
        1 < value(r.2) < value(r.0),
        value(r.2) % value(r.0) != 1,
        has_order_dividing(value(r.2), value(r.1), value(r.0)),
{
    let q = big_from_u128(170141183460469171114957017901932292919);
    let two = big_from_u128(2);
    let p = big_add(&big_mul(&q, &two), &big_from_u128(1));
    proof {
        lemma_fixed_parameters_valid();
    }
    (p, q, two)
}

} // verus!

//! Feldman's verifiable secret sharing: public commitments to the
//! coefficients of the dealer's polynomial, and the check of a share against
//! them.
//!
//! The commitments live in a group of order `q` inside the integers modulo
//! `p`. Values are reduced by `p`, exponents by `q`.

use crate::bignum::{big_clone, big_eq, big_from_u128, big_rem, value, values};
use crate::field::{mod_pow, mul_mod};
use crate::lagrange::{share_xs, share_ys};
use crate::series::{lemma_product_take, product};
use num_bigint::BigUint;
use crate::polynomial::{poly_eval, share_at};
use vstd::arithmetic::div_mod::{
    lemma_add_mod_noop, lemma_fundamental_div_mod, lemma_mod_bound, lemma_mod_multiples_vanish,
    lemma_mul_mod_noop, lemma_mul_mod_noop_general, lemma_mul_mod_noop_left,
};
use vstd::arithmetic::mul::lemma_mul_is_associative;
use vstd::arithmetic::power::{
    lemma1_pow, lemma_pow0, lemma_pow1, lemma_pow_adds, lemma_pow_mod_noop, lemma_pow_multiplies,
    pow,
};
use vstd::prelude::*;

verus! {

/// The commitment to the coefficient `a`: `g^a` modulo `p`.
pub open spec fn commitment(g: nat, a: nat, p: nat) -> nat {
    (pow(g as int, a) % (p as int)) as nat
}

/// The commitments to the coefficients `coeffs`, in the same order.
pub open spec fn commitments_of(coeffs: Seq<nat>, g: nat, p: nat) -> Seq<nat> {
    Seq::new(coeffs.len(), |i: int| commitment(g, coeffs[i], p))
}

/// The exponent that the commitment at `i` gets in the check of a share at
/// `x`: `x^i` reduced by the order `q` of the group.
pub open spec fn share_exponent(x: nat, i: nat, q: nat) -> nat {
    (pow(x as int, i) % (q as int)) as nat
}

/// The factors `C_i^(x^i mod q)` of the right side of the check.
pub open spec fn commitment_factors(commitments: Seq<nat>, x: nat, q: nat) -> Seq<int> {
    Seq::new(
        commitments.len(),
        |i: int| pow(commitments[i] as int, share_exponent(x, i as nat, q)),
    )
}

/// The right side of the check: the product of `C_i^(x^i mod q)`, modulo
/// `p`.
pub open spec fn commitment_product(commitments: Seq<nat>, x: nat, p: nat, q: nat) -> int {
    product(commitment_factors(commitments, x, q)) % (p as int)
}

/// Whether the share `(x, y)` agrees with the commitments: `g^y` is the
/// product of `C_i^(x^i mod q)`, modulo `p`.
pub open spec fn share_verifies(
    x: nat,
    y: nat,
    commitments: Seq<nat>,
    g: nat,
    p: nat,
    q: nat,
) -> bool {
    pow(g as int, y) % (p as int) == commitment_product(commitments, x, p, q)
}

/// Whether `secret` agrees with the commitment to the constant term.
pub open spec fn secret_verifies(secret: nat, first: nat, g: nat, p: nat) -> bool {
    pow(g as int, secret) % (p as int) == first
}

/// One step of the check of a share: what the commitment at this place
/// adds to the right side.
pub struct CheckStep {
    /// `x^i mod q`.
    pub exponent: BigUint,
    /// `C_i^(x^i mod q) mod p`.
    pub term: BigUint,
    /// The product of the terms up to this one, modulo `p`.
    pub running_product: BigUint,
}

/// The check of a share, step by step.
pub struct ShareCheck {
    /// `g^y mod p`.
    pub left_side: BigUint,
    /// One step for each commitment, in order.
    pub steps: Vec<CheckStep>,
    /// The product of all terms, modulo `p`.
    pub right_side: BigUint,
}

/// Whether `step` is the step at `i` of the check of a share at `x`.
pub open spec fn is_step_of(
    step: CheckStep,
    i: int,
    x: nat,
    commitments: Seq<nat>,
    p: nat,
    q: nat,
) -> bool {
    let factors = commitment_factors(commitments, x, q);
    &&& value(step.exponent) == share_exponent(x, i as nat, q)
    &&& value(step.term) == factors[i] % (p as int)
    &&& value(step.running_product) == product(factors.take(i + 1)) % (p as int)
}

/// Whether `check` holds the steps of the check of the share `(x, y)`.
pub open spec fn is_check_of(
    check: ShareCheck,
    x: nat,
    y: nat,
    commitments: Seq<nat>,
    g: nat,
    p: nat,
    q: nat,
) -> bool {
    &&& value(check.left_side) == pow(g as int, y) % (p as int)
    &&& check.steps@.len() == commitments.len()
    &&& forall|i: int|
        0 <= i < commitments.len() ==> is_step_of(
            #[trigger] check.steps@[i],
            i,
            x,
            commitments,
            p,
            q,
        )
    &&& value(check.right_side) == commitment_product(commitments, x, p, q)
}

/// The commitments `g^a mod p` to the coefficients `a` of a polynomial, in
/// the order of the coefficients.
pub fn generate_commitments(coeffs: &[BigUint], g: &BigUint, p: &BigUint) -> (r: Vec<BigUint>)
    requires
        value(*p) > 0,
    ensures
        values(r@) == commitments_of(values(coeffs@), value(*g), value(*p)),
{
    let mut out: Vec<BigUint> = Vec::new();
    let n = coeffs.len();
    let mut i: usize = 0;
    while i < n
        invariant
            i <= n,
            n == coeffs@.len(),
            value(*p) > 0,
            out@.len() == i,
            forall|k: int|
                0 <= k < i ==> value(#[trigger] out@[k]) == commitment(
                    value(*g),
                    value(coeffs@[k]),
                    value(*p),
                ),
        decreases n - i,
    {
        let c = mod_pow(g, &coeffs[i], p);
        proof {
            lemma_mod_bound(pow(value(*g) as int, value(coeffs@[i as int])), value(*p) as int);
        }
        out.push(c);
        i = i + 1;
    }
    proof {
        assert(values(out@) =~= commitments_of(values(coeffs@), value(*g), value(*p)));
    }
    out
}

/// The commitments to the coefficients of a polynomial: another name for
/// `generate_commitments`.
pub fn compute_commitments(coeffs: &[BigUint], g: &BigUint, prime: &BigUint) -> (r: Vec<BigUint>)
    requires
        value(*prime) > 0,
    ensures
        values(r@) == commitments_of(values(coeffs@), value(*g), value(*prime)),
{
    generate_commitments(coeffs, g, prime)
}

/// The check of the share `(x, y)` with every step kept: both sides of
/// `g^y = product of C_i^(x^i mod q)` modulo `p`, and for each commitment
/// the exponent, the term and the product so far.
pub fn verify_share_verbose(
    x: &BigUint,
    y: &BigUint,
    commitments: &[BigUint],
    g: &BigUint,
    p: &BigUint,
    q: &BigUint,
) -> (r: ShareCheck)
    requires
        value(*p) > 0,
        value(*q) > 0,
    ensures
        is_check_of(
            r,
            value(*x),
            value(*y),
            values(commitments@),
            value(*g),
            value(*p),
            value(*q),
        ),
{
    let ghost cs = values(commitments@);
    let ghost xv = value(*x);
    let ghost pv = value(*p) as int;
    let ghost qv = value(*q) as int;
    let ghost factors = commitment_factors(cs, xv, value(*q));
    let left_side = mod_pow(g, y, p);
    let one = big_from_u128(1);
    let mut right_side = big_rem(&one, p);
    let mut x_power = big_rem(&one, q);
    let mut steps: Vec<CheckStep> = Vec::new();
    let n = commitments.len();
    let mut i: usize = 0;
    proof {
        assert(factors.take(0).len() == 0);
        lemma_pow0(xv as int);
    }
    while i < n
        invariant
            i <= n,
            n == commitments@.len(),
            cs == values(commitments@),
            xv == value(*x),
            pv == value(*p),
            qv == value(*q),
            pv > 0,
            qv > 0,
            factors == commitment_factors(cs, xv, value(*q)),
            value(right_side) == product(factors.take(i as int)) % pv,
            value(x_power) == pow(xv as int, i as nat) % qv,
            steps@.len() == i,
            forall|k: int|
                0 <= k < i ==> is_step_of(#[trigger] steps@[k], k, xv, cs, pv as nat, qv as nat),
        decreases n - i,
    {
        let term = mod_pow(&commitments[i], &x_power, p);
        let next = mul_mod(&right_side, &term, p);
        let next_power = mul_mod(&x_power, x, q);
        proof {
            lemma_product_take(factors, i as int);
            lemma_mod_bound(pow(xv as int, i as nat), qv);
            assert(factors[i as int] == pow(
                cs[i as int] as int,
                share_exponent(xv, i as nat, qv as nat),
            ));
            assert(value(term) == factors[i as int] % pv);
            lemma_mul_mod_noop(product(factors.take(i as int)), factors[i as int], pv);
            lemma_mul_mod_noop_left(pow(xv as int, i as nat), xv as int, qv);
            lemma_pow_adds(xv as int, i as nat, 1);
            lemma_pow1(xv as int);
        }
        let step = CheckStep { exponent: x_power, term, running_product: big_clone(&next) };
        proof {
            assert(is_step_of(step, i as int, xv, cs, pv as nat, qv as nat));
        }
        steps.push(step);
        right_side = next;
        x_power = next_power;
        i = i + 1;
    }
    proof {
        assert(factors.take(n as int) =~= factors);
    }
    ShareCheck { left_side, steps, right_side }
}

/// Checks the share `(x, y)` against the commitments: `g^y mod p` against
/// the product of `C_i^(x^i mod q)` modulo `p`, as `verify_share_verbose`
/// computes the two.
///
/// `false` is an answer, not an error: it is what a share that was changed
/// gets.
pub fn verify_share(
    x: &BigUint,
    y: &BigUint,
    commitments: &[BigUint],
    g: &BigUint,
    p: &BigUint,
    q: &BigUint,
) -> (r: bool)
    requires
        value(*p) > 0,
        value(*q) > 0,
    ensures
        r == share_verifies(
            value(*x),
            value(*y),
            values(commitments@),
            value(*g),
            value(*p),
            value(*q),
        ),
{
    let check = verify_share_verbose(x, y, commitments, g, p, q);
    big_eq(&check.left_side, &check.right_side)
}

/// Checks every share against the commitments; the answers are in the order
/// of the shares.
pub fn verify_all(
    shares: &[(BigUint, BigUint)],
    commitments: &[BigUint],
    g: &BigUint,
    p: &BigUint,
    q: &BigUint,
) -> (r: Vec<bool>)
    requires
        value(*p) > 0,
        value(*q) > 0,
    ensures
        r@.len() == shares@.len(),
        forall|i: int|
            0 <= i < shares@.len() ==> #[trigger] r@[i] == share_verifies(
                share_xs(shares@)[i],
                share_ys(shares@)[i],
                values(commitments@),
                value(*g),
                value(*p),
                value(*q),
            ),
{
    let mut out: Vec<bool> = Vec::new();
    let n = shares.len();
    let mut i: usize = 0;
    while i < n
        invariant
            i <= n,
            n == shares@.len(),
            value(*p) > 0,
            value(*q) > 0,
            out@.len() == i,
            forall|k: int|
                0 <= k < i ==> #[trigger] out@[k] == share_verifies(
                    share_xs(shares@)[k],
                    share_ys(shares@)[k],
                    values(commitments@),
                    value(*g),
                    value(*p),
                    value(*q),
                ),
        decreases n - i,
    {
        let ok = verify_share(&shares[i].0, &shares[i].1, commitments, g, p, q);
        out.push(ok);
        i = i + 1;
    }
    out
}

/// Checks a secret against the commitment to the constant term of the
/// polynomial: `g^secret mod p` against `C_0`. It tells nothing of the other
/// coefficients.
pub fn verify_secret(secret: &BigUint, first_commitment: &BigUint, g: &BigUint, p: &BigUint) -> (r:
    bool)
    requires
        value(*p) > 0,
    ensures
        r == secret_verifies(value(*secret), value(*first_commitment), value(*g), value(*p)),
{
    let computed = mod_pow(g, secret, p);
    big_eq(&computed, first_commitment)
}

/// Whether `g` generates a group of an order that divides `q` modulo `p`:
/// `g^q` is 1.
pub open spec fn has_order_dividing(g: nat, q: nat, p: nat) -> bool {
    pow(g as int, q) % (p as int) == 1int % (p as int)
}

/// The exponent of `g` that the right side of the check comes to for the
/// commitments to `coeffs`: the sum of `coeffs[i] * (x^i mod q)`.
pub open spec fn exponent_sum(coeffs: Seq<nat>, x: nat, q: nat) -> nat
    decreases coeffs.len(),
{
    if coeffs.len() == 0 {
        0
    } else {
        exponent_sum(coeffs.drop_last(), x, q) + coeffs.last() * share_exponent(
            x,
            (coeffs.len() - 1) as nat,
            q,
        )
    }
}

/// Where `g^q` is 1 modulo `p`, a power of `g` depends on its exponent
/// modulo `q` alone.
pub proof fn lemma_pow_period(g: nat, e: nat, p: nat, q: nat)
    requires
        p > 0,
        q > 0,
        has_order_dividing(g, q, p),
    ensures
        pow(g as int, e) % (p as int) == pow(g as int, e % q) % (p as int),
{
    let gi = g as int;
    let pi = p as int;
    let d = e / q;
    let r = e % q;
    lemma_fundamental_div_mod(e as int, q as int);
    assert(e == q * d + r);
    lemma_pow_adds(gi, q * d, r);
    lemma_pow_multiplies(gi, q, d);
    lemma_pow_mod_noop(pow(gi, q), d, pi);
    lemma_pow_mod_noop(1, d, pi);
    lemma1_pow(d);
    assert(pow(gi, q * d) % pi == 1int % pi);
    lemma_mul_mod_noop_general(pow(gi, q * d), pow(gi, r), pi);
    lemma_mul_mod_noop_general(1, pow(gi, r), pi);
    assert(1 * pow(gi, r) == pow(gi, r));
}

/// The right side of the check for the first `n` commitments to `coeffs` is
/// `g` to the power `exponent_sum`, and that exponent is the value of the
/// polynomial modulo `q`.
proof fn lemma_commitment_prefix(coeffs: Seq<nat>, x: nat, g: nat, p: nat, q: nat, n: int)
    requires
        p > 0,
        q > 0,
        0 <= n <= coeffs.len(),
    ensures
        product(commitment_factors(commitments_of(coeffs, g, p), x, q).take(n)) % (p as int)
            == pow(g as int, exponent_sum(coeffs.take(n), x, q)) % (p as int),
        (exponent_sum(coeffs.take(n), x, q) as int) % (q as int) == poly_eval(coeffs.take(n), x)
            % (q as int),
    decreases n,
{
    let gi = g as int;
    let pi = p as int;
    let qi = q as int;
    let factors = commitment_factors(commitments_of(coeffs, g, p), x, q);
    if n == 0 {
        assert(factors.take(0).len() == 0);
        assert(coeffs.take(0).len() == 0);
        lemma_pow0(gi);
    } else {
        let m = n - 1;
        lemma_commitment_prefix(coeffs, x, g, p, q, m);
        let a = coeffs[m];
        let e = share_exponent(x, m as nat, q);
        let xm = pow(x as int, m as nat);
        let s_m = exponent_sum(coeffs.take(m), x, q);
        let s_n = exponent_sum(coeffs.take(n), x, q);
        let prod_m = product(factors.take(m));
        assert(coeffs.take(n).drop_last() =~= coeffs.take(m));
        assert(coeffs.take(n).last() == a);
        assert(s_n == s_m + a * e);
        assert(poly_eval(coeffs.take(n), x) == poly_eval(coeffs.take(m), x) + a * xm);
        // the product
        lemma_product_take(factors, m);
        lemma_mod_bound(pow(gi, a), pi);
        assert(factors[m] == pow(pow(gi, a) % pi, e));
        lemma_pow_mod_noop(pow(gi, a), e, pi);
        lemma_pow_multiplies(gi, a, e);
        assert(factors[m] % pi == pow(gi, a * e) % pi);
        lemma_mul_mod_noop(prod_m, factors[m], pi);
        lemma_mul_mod_noop(pow(gi, s_m), pow(gi, a * e), pi);
        lemma_pow_adds(gi, s_m, a * e);
        // the exponent
        lemma_mod_bound(xm, qi);
        assert(e == xm % qi);
        lemma_mul_mod_noop_general(a as int, xm, qi);
        lemma_add_mod_noop(s_m as int, (a * e) as int, qi);
        lemma_add_mod_noop(poly_eval(coeffs.take(m), x), a * xm, qi);
    }
}

/// Every share of a polynomial agrees with the commitments to that
/// polynomial, where `g^q` is 1 modulo `p`.
pub proof fn lemma_dealt_share_verifies(coeffs: Seq<nat>, x: nat, g: nat, p: nat, q: nat)
    requires
        p > 0,
        q > 0,
        has_order_dividing(g, q, p),
    ensures
        share_verifies(x, share_at(coeffs, x, q), commitments_of(coeffs, g, p), g, p, q),
{
    let n = coeffs.len() as int;
    lemma_commitment_prefix(coeffs, x, g, p, q, n);
    assert(coeffs.take(n) =~= coeffs);
    let factors = commitment_factors(commitments_of(coeffs, g, p), x, q);
    assert(factors.take(n) =~= factors);
    lemma_pow_period(g, exponent_sum(coeffs, x, q), p, q);
    lemma_mod_bound(poly_eval(coeffs, x), q as int);
}

/// A share that agrees with the commitments no longer does once its `y` is
/// raised by one, where `g^q` is 1 modulo `p` and `g` itself is not.
pub proof fn lemma_tampered_share_fails(
    x: nat,
    y: nat,
    commitments: Seq<nat>,
    g: nat,
    p: nat,
    q: nat,
)
    requires
        p > 0,
        q > 0,
        has_order_dividing(g, q, p),
        (g as int) % (p as int) != 1int % (p as int),
        share_verifies(x, y, commitments, g, p, q),
    ensures
        !share_verifies(x, y + 1, commitments, g, p, q),
{
    let gi = g as int;
    let pi = p as int;
    let u = pow(gi, y);
    let t = ((q - 1) * y) as nat;
    let w = pow(gi, t);
    if share_verifies(x, y + 1, commitments, g, p, q) {
        // g * u and u are congruent; w undoes u
        lemma_pow_adds(gi, 1, y);
        lemma_pow1(gi);
        assert(pow(gi, (y + 1) as nat) == gi * u);
        assert((gi * u) % pi == u % pi);
        assert(y + t == q * y) by (nonlinear_arith)
            requires
                t == (q - 1) * y,
                q > 0,
        ;
        lemma_pow_adds(gi, y, t);
        lemma_pow_period(g, q * y, p, q);
        lemma_mod_multiples_vanish(y as int, 0, q as int);
        assert((q * y) % q == 0);
        lemma_pow0(gi);
        assert((u * w) % pi == 1int % pi);
        lemma_mul_mod_noop_general(gi * u, w, pi);
        lemma_mul_mod_noop_general(u, w, pi);
        assert(((gi * u) * w) % pi == (u * w) % pi);
        lemma_mul_is_associative(gi, u, w);
        lemma_mul_mod_noop_general(gi, u * w, pi);
        lemma_mul_mod_noop_general(gi, 1, pi);
        assert(gi * 1 == gi);
        assert(false);
    }
}

} // verus!

//! Reconstruction of the secret: Lagrange interpolation at zero.
//!
//! For shares `(x_j, y_j)` the secret is the sum of `y_j * L_j(0)`, where
//! `L_j(0)` is the product of `x_m / (x_m - x_j)` over the other shares `m`.
//! All of it is computed modulo the prime of the field.
//!
//! Interpolation cannot tell right shares from wrong ones. From fewer shares
//! than the threshold, or from shares of which one was changed, it returns a
//! number that is not the secret, and no error. That is in the nature of the
//! method; `feldman::verify_share` is the means to tell.

use crate::bignum::{big_from_u128, big_rem, value};
use crate::error::Error;
use crate::field::{add_mod, inverse_mod, invertible, mod_inv, mod_inverse, mul_mod, sub_mod};
use crate::series::{lemma_product_take, lemma_sum_take, product, sum};
use num_bigint::BigUint;
use vstd::arithmetic::div_mod::{
    lemma_add_mod_noop, lemma_mul_mod_noop, lemma_mul_mod_noop_left, lemma_small_mod,
};
use vstd::arithmetic::power::pow;
use vstd::prelude::*;

verus! {

/// The `x` of each share, in order.
pub open spec fn share_xs(shares: Seq<(BigUint, BigUint)>) -> Seq<nat> {
    Seq::new(shares.len(), |i: int| value(shares[i].0))
}

/// The `y` of each share, in order.
pub open spec fn share_ys(shares: Seq<(BigUint, BigUint)>) -> Seq<nat> {
    Seq::new(shares.len(), |i: int| value(shares[i].1))
}

/// The factors of the numerator of `L_j(0)`: `x_m` for every share `m` but
/// `j`, and 1 in the place of `j`.
pub open spec fn numerator_factors(xs: Seq<nat>, j: int) -> Seq<int> {
    Seq::new(
        xs.len(),
        |m: int|
            if m == j {
                1int
            } else {
                xs[m] as int
            },
    )
}

/// The factors of the denominator of `L_j(0)`: `x_m - x_j` for every share
/// `m` but `j`, and 1 in the place of `j`.
pub open spec fn denominator_factors(xs: Seq<nat>, j: int) -> Seq<int> {
    Seq::new(
        xs.len(),
        |m: int|
            if m == j {
                1int
            } else {
                xs[m] - xs[j]
            },
    )
}

/// The numerator of `L_j(0)` modulo `p`.
pub open spec fn basis_numerator(xs: Seq<nat>, j: int, p: int) -> int {
    product(numerator_factors(xs, j)) % p
}

/// The denominator of `L_j(0)` modulo `p`.
pub open spec fn basis_denominator(xs: Seq<nat>, j: int, p: int) -> int {
    product(denominator_factors(xs, j)) % p
}

/// `L_j(0)` modulo `p`: the numerator times the inverse of the denominator.
pub open spec fn basis_at_zero(xs: Seq<nat>, j: int, p: int) -> int {
    (basis_numerator(xs, j, p) * mod_inverse(basis_denominator(xs, j, p), p)) % p
}

/// `L_j(0)` modulo `p` with Fermat's candidate for the inverse of the
/// denominator: the denominator to the power `p - 2`.
pub open spec fn fermat_basis_at_zero(xs: Seq<nat>, j: int, p: int) -> int {
    (basis_numerator(xs, j, p) * (pow(basis_denominator(xs, j, p), (p - 2) as nat) % p)) % p
}

/// The terms `y_j * L_j(0)` of the interpolation.
pub open spec fn lagrange_terms(xs: Seq<nat>, ys: Seq<nat>, p: int) -> Seq<int> {
    Seq::new(xs.len(), |j: int| ys[j] * basis_at_zero(xs, j, p))
}

/// The terms of the interpolation with Fermat's candidates for the
/// inverses.
pub open spec fn fermat_terms(xs: Seq<nat>, ys: Seq<nat>, p: int) -> Seq<int> {
    Seq::new(xs.len(), |j: int| ys[j] * fermat_basis_at_zero(xs, j, p))
}

/// The value at zero, modulo `p`, of the polynomial through the points
/// `(xs[j], ys[j])`.
pub open spec fn interpolate_at_zero(xs: Seq<nat>, ys: Seq<nat>, p: int) -> int {
    sum(lagrange_terms(xs, ys, p)) % p
}

/// Whether every denominator of the interpolation has an inverse modulo
/// `p`.
pub open spec fn denominators_invertible(xs: Seq<nat>, p: int) -> bool {
    forall|j: int| 0 <= j < xs.len() ==> invertible(#[trigger] basis_denominator(xs, j, p), p)
}

/// The numerator and the denominator of `L_j(0)` modulo `prime`.
fn basis_parts(j_index: usize, shares: &[(BigUint, BigUint)], prime: &BigUint) -> (r: (
    BigUint,
    BigUint,
))
    requires
        j_index < shares@.len(),
        value(*prime) > 0,
    ensures
        value(r.0) == basis_numerator(share_xs(shares@), j_index as int, value(*prime) as int),
        value(r.1) == basis_denominator(share_xs(shares@), j_index as int, value(*prime) as int),
{
    let ghost xs = share_xs(shares@);
    let ghost p = value(*prime) as int;
    let ghost j = j_index as int;
    let ghost nf = numerator_factors(xs, j);
    let ghost df = denominator_factors(xs, j);
    let one = big_from_u128(1);
    let mut num = big_rem(&one, prime);
    let mut den = big_rem(&one, prime);
    let n = shares.len();
    let mut m: usize = 0;
    proof {
        assert(nf.take(0).len() == 0);
        assert(df.take(0).len() == 0);
    }
    while m < n
        invariant
            m <= n,
            n == shares@.len(),
            j_index < n,
            j == j_index,
            xs == share_xs(shares@),
            nf == numerator_factors(xs, j),
            df == denominator_factors(xs, j),
            p == value(*prime),
            p > 0,
            value(num) == product(nf.take(m as int)) % p,
            value(den) == product(df.take(m as int)) % p,
        decreases n - m,
    {
        proof {
            lemma_product_take(nf, m as int);
            lemma_product_take(df, m as int);
        }
        if m != j_index {
            let xm = &shares[m].0;
            let xj = &shares[j_index].0;
            let next_num = mul_mod(&num, xm, prime);
            let diff = sub_mod(xm, xj, prime);
            let next_den = mul_mod(&den, &diff, prime);
            proof {
                assert(nf[m as int] == xs[m as int]);
                assert(df[m as int] == xs[m as int] - xs[j]);
                lemma_mul_mod_noop_left(product(nf.take(m as int)), xs[m as int] as int, p);
                lemma_mul_mod_noop(product(df.take(m as int)), xs[m as int] - xs[j], p);
            }
            num = next_num;
            den = next_den;
        } else {
            proof {
                assert(nf[m as int] == 1);
                assert(df[m as int] == 1);
                assert(product(nf.take(m as int)) * 1 == product(nf.take(m as int)));
                assert(product(df.take(m as int)) * 1 == product(df.take(m as int)));
            }
        }
        m = m + 1;
    }
    proof {
        assert(nf.take(n as int) =~= nf);
        assert(df.take(n as int) =~= df);
    }
    (num, den)
}

/// `L_j(0)` modulo `prime` for the share at `j_index`, with the denominator
/// inverted by Fermat's little theorem. The result is `L_j(0)` where `prime`
/// is a prime and the shares have different `x` modulo `prime`.
pub fn compute_lj_zero(j_index: usize, shares: &[(BigUint, BigUint)], prime: &BigUint) -> (r:
    BigUint)
    requires
        j_index < shares@.len(),
        value(*prime) >= 2,
    ensures
        value(r) == fermat_basis_at_zero(share_xs(shares@), j_index as int, value(*prime) as int),
{
    let (num, den) = basis_parts(j_index, shares, prime);
    let den_inv = mod_inv(&den, prime);
    mul_mod(&num, &den_inv, prime)
}

/// The secret from the shares, modulo `prime`: the sum of `y_j * L_j(0)`
/// with `compute_lj_zero` for `L_j(0)`.
pub fn reconstruct_secret(shares: &[(BigUint, BigUint)], prime: &BigUint) -> (r: BigUint)
    requires
        value(*prime) >= 2,
    ensures
        value(r) == sum(fermat_terms(share_xs(shares@), share_ys(shares@), value(*prime) as int))
            % (value(*prime) as int),
{
    let ghost xs = share_xs(shares@);
    let ghost ys = share_ys(shares@);
    let ghost p = value(*prime) as int;
    let ghost terms = fermat_terms(xs, ys, p);
    let mut secret = big_from_u128(0);
    let n = shares.len();
    let mut j: usize = 0;
    proof {
        assert(terms.take(0).len() == 0);
        lemma_small_mod(0, p as nat);
    }
    while j < n
        invariant
            j <= n,
            n == shares@.len(),
            xs == share_xs(shares@),
            ys == share_ys(shares@),
            terms == fermat_terms(xs, ys, p),
            p == value(*prime),
            p >= 2,
            value(secret) == sum(terms.take(j as int)) % p,
        decreases n - j,
    {
        let lj = compute_lj_zero(j, shares, prime);
        let term = mul_mod(&shares[j].1, &lj, prime);
        let next = add_mod(&secret, &term, prime);
        proof {
            lemma_sum_take(terms, j as int);
            assert(terms[j as int] == ys[j as int] * fermat_basis_at_zero(xs, j as int, p));
            lemma_add_mod_noop(sum(terms.take(j as int)), terms[j as int], p);
        }
        secret = next;
        j = j + 1;
    }
    proof {
        assert(terms.take(n as int) =~= terms);
    }
    secret
}

/// The secret from the shares, modulo `q`, with every denominator inverted
/// by the extended Euclidean algorithm.
///
/// Where a denominator has no inverse the interpolation stops with
/// `NonInvertibleDenominator`: two shares have the same `x` modulo `q`, or
/// `q` is not prime.
pub fn interpolate(shares: &[(BigUint, BigUint)], q: &BigUint) -> (r: Result<BigUint, Error>)
    requires
        value(*q) > 0,
    ensures
        r is Ok <==> denominators_invertible(share_xs(shares@), value(*q) as int),
        r matches Ok(secret) ==> value(secret) == interpolate_at_zero(
            share_xs(shares@),
            share_ys(shares@),
            value(*q) as int,
        ),
        r matches Err(e) ==> e == Error::NonInvertibleDenominator,
{
    let ghost xs = share_xs(shares@);
    let ghost ys = share_ys(shares@);
    let ghost p = value(*q) as int;
    let ghost terms = lagrange_terms(xs, ys, p);
    let mut secret = big_from_u128(0);
    let n = shares.len();
    let mut j: usize = 0;
    proof {
        assert(terms.take(0).len() == 0);
        lemma_small_mod(0, p as nat);
    }
    while j < n
        invariant
            j <= n,
            n == shares@.len(),
            xs == share_xs(shares@),
            ys == share_ys(shares@),
            terms == lagrange_terms(xs, ys, p),
            p == value(*q),
            p > 0,
            value(secret) == sum(terms.take(j as int)) % p,
            forall|i: int| 0 <= i < j ==> invertible(#[trigger] basis_denominator(xs, i, p), p),
        decreases n - j,
    {
        let (num, den) = basis_parts(j, shares, q);
        let den_inv = match inverse_mod(&den, q) {
            Some(v) => v,
            None => {
                proof {
                    assert(!invertible(basis_denominator(xs, j as int, p), p));
                }
                return Err(Error::NonInvertibleDenominator);
            },
        };
        let coeff = mul_mod(&num, &den_inv, q);
        let term = mul_mod(&shares[j].1, &coeff, q);
        let next = add_mod(&secret, &term, q);
        proof {
            lemma_sum_take(terms, j as int);
            assert(terms[j as int] == ys[j as int] * basis_at_zero(xs, j as int, p));
            lemma_add_mod_noop(sum(terms.take(j as int)), terms[j as int], p);
        }
        secret = next;
        j = j + 1;
    }
    proof {
        assert(terms.take(n as int) =~= terms);
    }
    Ok(secret)
}

} // verus!

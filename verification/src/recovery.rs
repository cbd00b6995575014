//! Why reconstruction gives the secret back.
//!
//! Modulo a prime, the interpolation at zero of `k` or more shares of a
//! polynomial with `k` coefficients is the constant term of that
//! polynomial. The proof goes through weighted sums over the nodes: with the
//! weight `1 / prod (z_m - z_j)` for the node `z_j`, the weighted sum of the
//! values of a polynomial with fewer coefficients than there are nodes is
//! zero. The shares together with the point `(0, secret)` are such nodes.

use crate::dealer::{dealt_xs, dealt_ys, is_dealing};
use crate::field::{
    invertible, is_inverse, is_prime, lemma_mod_inverse_is, lemma_prime_invertible,
    lemma_prime_no_zero_divisors, mod_inverse,
};
use crate::fermat::lemma_fermat_inverse;
use crate::lagrange::{
    basis_at_zero, basis_denominator, basis_numerator, denominator_factors,
    denominators_invertible, fermat_terms, interpolate_at_zero, lagrange_terms,
    numerator_factors,
};
use crate::series::{
    lemma_add_congruent, lemma_mul_congruent, lemma_product_nonzero, lemma_product_remove,
    lemma_sum_combination, lemma_sum_congruent, lemma_sum_negated, lemma_sum_remove, product,
    sum,
};
use crate::polynomial::{lemma_poly_eval_horner, poly_eval, share_at};
use vstd::arithmetic::div_mod::{
    lemma_mod_bound, lemma_mod_equivalence, lemma_mod_twice, lemma_mul_mod_noop,
    lemma_mul_mod_noop_general, lemma_mul_mod_noop_left, lemma_mul_mod_noop_right,
    lemma_small_mod,
};
use vstd::prelude::*;

verus! {

/// Whether the numbers of `zs` are different modulo `p`.
pub open spec fn distinct_mod(zs: Seq<nat>, p: nat) -> bool {
    forall|i: int, j: int|
        #![trigger zs[i], zs[j]]
        0 <= i < zs.len() && 0 <= j < zs.len() && i != j ==> zs[i] % p != zs[j] % p
}

/// Whether no number of `zs` is a multiple of `p`.
pub open spec fn nonzero_mod(zs: Seq<nat>, p: nat) -> bool {
    forall|i: int| 0 <= i < zs.len() ==> #[trigger] zs[i] % p != 0
}

/// The weight of the node at `j`: the inverse of the product of
/// `z_m - z_j` over the other nodes `m`.
pub open spec fn weight(zs: Seq<nat>, j: int, p: nat) -> int {
    mod_inverse(basis_denominator(zs, j, p as int), p as int)
}

/// The values `vs`, each times the weight of its node.
pub open spec fn weighted_terms(zs: Seq<nat>, vs: Seq<int>, p: nat) -> Seq<int> {
    Seq::new(zs.len(), |j: int| vs[j] * weight(zs, j, p))
}

/// The weighted sum of the values `vs` at the nodes `zs`.
pub open spec fn weighted_sum(zs: Seq<nat>, vs: Seq<int>, p: nat) -> int {
    sum(weighted_terms(zs, vs, p))
}

/// The place that the node at `j` has once the node at `t` is taken out.
pub open spec fn place_without(j: int, t: int) -> int {
    if j < t {
        j
    } else {
        j - 1
    }
}

/// Taking a node out keeps the others different.
pub proof fn lemma_distinct_remove(zs: Seq<nat>, t: int, p: nat)
    requires
        distinct_mod(zs, p),
        0 <= t < zs.len(),
    ensures
        distinct_mod(zs.remove(t), p),
{
    let rs = zs.remove(t);
    assert forall|i: int, j: int|
        #![trigger rs[i], rs[j]]
        0 <= i < rs.len() && 0 <= j < rs.len() && i != j implies rs[i] % p != rs[j] % p by {
        let (i0, j0) = (if i < t { i } else { i + 1 }, if j < t { j } else { j + 1 });
        assert(rs[i] == zs[i0] && rs[j] == zs[j0]);
    }
}

/// Modulo a prime, the denominator of a node among different nodes has an
/// inverse, and the weight of the node is that inverse.
pub proof fn lemma_denominator_invertible(zs: Seq<nat>, j: int, p: nat)
    requires
        is_prime(p),
        distinct_mod(zs, p),
        0 <= j < zs.len(),
    ensures
        invertible(basis_denominator(zs, j, p as int), p as int),
        is_inverse(basis_denominator(zs, j, p as int), weight(zs, j, p), p as int),
        (product(denominator_factors(zs, j)) * weight(zs, j, p)) % (p as int) == 1,
        basis_denominator(zs, j, p as int) != 0,
{
    let pi = p as int;
    let f = denominator_factors(zs, j);
    assert forall|i: int| #![trigger f[i]] 0 <= i < f.len() implies f[i] % pi != 0 by {
        if i == j {
            lemma_small_mod(1, p);
        } else {
            assert(zs[i] % p != zs[j] % p);
            lemma_mod_equivalence(zs[i] as int, zs[j] as int, pi);
        }
    }
    lemma_product_nonzero(f, p);
    lemma_mod_twice(product(f), pi);
    lemma_prime_invertible(product(f) % pi, p);
    lemma_mul_mod_noop_left(product(f), weight(zs, j, p), pi);
    lemma_small_mod(1, p);
}

/// The weight of a node among the nodes without the one at `t` is its
/// weight among all of them times `z_t - z_j`.
pub proof fn lemma_weight_remove(zs: Seq<nat>, j: int, t: int, p: nat)
    requires
        is_prime(p),
        distinct_mod(zs, p),
        0 <= j < zs.len(),
        0 <= t < zs.len(),
        j != t,
    ensures
        ((zs[t] - zs[j]) * weight(zs, j, p)) % (p as int) == weight(
            zs.remove(t),
            place_without(j, t),
            p,
        ),
{
    let pi = p as int;
    let rs = zs.remove(t);
    let jr = place_without(j, t);
    let f = denominator_factors(zs, j);
    let fr = denominator_factors(rs, jr);
    let e = zs[t] - zs[j];
    let w = weight(zs, j, p);
    let d = product(f);
    let dr = product(fr);
    lemma_product_remove(f, t);
    assert(f.remove(t) =~= fr);
    assert(f[t] == e);
    assert(d == dr * e);
    lemma_denominator_invertible(zs, j, p);
    // dr * (e * w) is 1, so e * w is the inverse of dr
    assert((dr * e) * w == dr * (e * w)) by (nonlinear_arith);
    lemma_mul_mod_noop_general(dr, e * w, pi);
    lemma_mod_bound(e * w, pi);
    lemma_small_mod(1, p);
    assert(is_inverse(dr % pi, (e * w) % pi, pi));
    lemma_mod_inverse_is(dr % pi, (e * w) % pi, pi);
}

/// The values `us`, each times its node.
pub open spec fn times_node(zs: Seq<nat>, us: Seq<int>) -> Seq<int> {
    Seq::new(zs.len(), |j: int| zs[j] * us[j])
}

/// As many ones as there are nodes.
pub open spec fn ones(n: nat) -> Seq<int> {
    Seq::new(n, |j: int| 1int)
}

/// The values of the polynomial with the coefficients `a` at the nodes.
pub open spec fn values_at(a: Seq<nat>, zs: Seq<nat>) -> Seq<int> {
    Seq::new(zs.len(), |j: int| poly_eval(a, zs[j]))
}

/// The weighted sum of the values `z_j * u_j` is `z_t` times the weighted
/// sum of the `u_j`, less the weighted sum of the `u_j` over the nodes
/// without the one at `t`.
pub proof fn lemma_leibniz(zs: Seq<nat>, us: Seq<int>, t: int, p: nat)
    requires
        is_prime(p),
        distinct_mod(zs, p),
        us.len() == zs.len(),
        0 <= t < zs.len(),
    ensures
        weighted_sum(zs, times_node(zs, us), p) % (p as int) == (zs[t] * weighted_sum(zs, us, p)
            - weighted_sum(zs.remove(t), us.remove(t), p)) % (p as int),
{
    let pi = p as int;
    let n = zs.len();
    let rs = zs.remove(t);
    let whole = weighted_terms(zs, times_node(zs, us), p);
    let plain = weighted_terms(zs, us, p);
    let shifted = Seq::new(n, |j: int| ((zs[j] - zs[t]) * us[j]) * weight(zs, j, p));
    assert forall|j: int| #![trigger whole[j]] 0 <= j < n implies whole[j] == zs[t] * plain[j] + 1
        * shifted[j] by {
        let (zj, zt, u, w) = (zs[j] as int, zs[t] as int, us[j], weight(zs, j, p));
        assert((zj * u) * w == zt * (u * w) + 1 * (((zj - zt) * u) * w)) by (nonlinear_arith);
    }
    lemma_sum_combination(whole, plain, shifted, zs[t] as int, 1);
    lemma_sum_remove(shifted, t);
    assert(shifted[t] == 0) by {
        assert(((zs[t] - zs[t]) * us[t]) * weight(zs, t, p) == 0) by (nonlinear_arith);
    }
    let rest = weighted_terms(rs, us.remove(t), p);
    let negated = Seq::new(rest.len(), |i: int| -rest[i]);
    let kept = shifted.remove(t);
    assert forall|i: int| #![trigger kept[i]] 0 <= i < kept.len() implies kept[i] % pi
        == negated[i] % pi by {
        let j = if i < t {
            i
        } else {
            i + 1
        };
        assert(kept[i] == shifted[j]);
        assert(place_without(j, t) == i);
        lemma_weight_remove(zs, j, t, p);
        let (e, u, w) = (zs[t] - zs[j], us[j], weight(zs, j, p));
        let wr = weight(rs, i, p);
        assert(us.remove(t)[i] == u);
        assert(shifted[j] == (-u) * (e * w)) by (nonlinear_arith)
            requires
                shifted[j] == ((zs[j] - zs[t]) * u) * w,
                e == zs[t] - zs[j],
        ;
        lemma_mul_mod_noop_right(-u, e * w, pi);
        assert((-u) * wr == -(u * wr)) by (nonlinear_arith);
    }
    lemma_sum_congruent(kept, negated, pi);
    lemma_sum_negated(rest);
    assert(negated =~= Seq::new(rest.len(), |j: int| -rest[j]));
    lemma_add_congruent(zs[t] * sum(plain), zs[t] * sum(plain), sum(kept), -sum(rest), pi);
}

/// Among one node alone the weight is 1.
proof fn lemma_single_weight(zs: Seq<nat>, p: nat)
    requires
        is_prime(p),
        zs.len() == 1,
    ensures
        weighted_sum(zs, ones(1), p) == 1,
{
    let f = denominator_factors(zs, 0);
    assert(f.drop_last().len() == 0);
    assert(product(f.drop_last()) == 1);
    assert(f.last() == 1);
    assert(product(f) == 1);
    lemma_small_mod(1, p);
    assert(is_inverse(1, 1, p as int));
    lemma_mod_inverse_is(1, 1, p as int);
    let terms = weighted_terms(zs, ones(1), p);
    assert(terms.drop_last().len() == 0);
    assert(sum(terms.drop_last()) == 0);
    assert(terms.last() == 1 * weight(zs, 0, p));
}

/// Over two or more different nodes the weights add up to zero.
pub proof fn lemma_weights_vanish(zs: Seq<nat>, p: nat)
    requires
        is_prime(p),
        distinct_mod(zs, p),
        zs.len() >= 2,
    ensures
        weighted_sum(zs, ones(zs.len()), p) % (p as int) == 0,
    decreases zs.len(),
{
    let pi = p as int;
    let n = zs.len();
    let last = n - 1;
    let w = weighted_sum(zs, ones(n), p);
    let without_first = weighted_sum(zs.remove(0), ones((n - 1) as nat), p);
    let without_last = weighted_sum(zs.remove(last), ones((n - 1) as nat), p);
    lemma_leibniz(zs, ones(n), 0, p);
    lemma_leibniz(zs, ones(n), last, p);
    assert(ones(n).remove(0) =~= ones((n - 1) as nat));
    assert(ones(n).remove(last) =~= ones((n - 1) as nat));
    lemma_distinct_remove(zs, 0, p);
    lemma_distinct_remove(zs, last, p);
    if n == 2 {
        lemma_single_weight(zs.remove(0), p);
        lemma_single_weight(zs.remove(last), p);
    } else {
        lemma_weights_vanish(zs.remove(0), p);
        lemma_weights_vanish(zs.remove(last), p);
    }
    assert(without_first % pi == without_last % pi);
    let a = zs[0] * w;
    let b = zs[last] * w;
    assert((a - without_first) % pi == (b - without_last) % pi);
    // a and b are congruent, so (z_last - z_0) * w is zero
    lemma_add_congruent(a - without_first, b - without_last, without_first, without_last, pi);
    assert(a % pi == b % pi);
    lemma_mod_equivalence(b, a, pi);
    assert(b - a == (zs[last] - zs[0]) * w) by (nonlinear_arith)
        requires
            a == zs[0] * w,
            b == zs[last] * w,
    ;
    lemma_prime_no_zero_divisors(zs[last] - zs[0], w, p);
    assert(zs[last] % p != zs[0] % p);
    lemma_mod_equivalence(zs[last] as int, zs[0] as int, pi);
}

/// Over different nodes the weighted sum of the values of a polynomial
/// with fewer coefficients than there are nodes is zero.
pub proof fn lemma_weighted_sum_vanishes(zs: Seq<nat>, a: Seq<nat>, p: nat)
    requires
        is_prime(p),
        distinct_mod(zs, p),
        a.len() < zs.len(),
    ensures
        weighted_sum(zs, values_at(a, zs), p) % (p as int) == 0,
    decreases a.len(),
{
    let pi = p as int;
    let n = zs.len();
    let whole = weighted_terms(zs, values_at(a, zs), p);
    if a.len() == 0 {
        assert forall|j: int| #![trigger whole[j]] 0 <= j < n implies whole[j] == 0 * whole[j] + 0
            * whole[j] by {
            assert(poly_eval(a, zs[j]) == 0);
            assert(0 * weight(zs, j, p) == 0);
        }
        lemma_sum_combination(whole, whole, whole, 0, 0);
        lemma_small_mod(0, p);
    } else {
        let tail = a.drop_first();
        let us = values_at(tail, zs);
        let unit = weighted_terms(zs, ones(n), p);
        let higher = weighted_terms(zs, times_node(zs, us), p);
        assert forall|j: int| #![trigger whole[j]] 0 <= j < n implies whole[j] == a[0] * unit[j] + 1
            * higher[j] by {
            lemma_poly_eval_horner(a, zs[j]);
            let (c, z, u, w) = (a[0] as int, zs[j] as int, us[j], weight(zs, j, p));
            assert((c + z * u) * w == c * (1 * w) + 1 * ((z * u) * w)) by (nonlinear_arith);
        }
        lemma_sum_combination(whole, unit, higher, a[0] as int, 1);
        lemma_weights_vanish(zs, p);
        lemma_leibniz(zs, us, 0, p);
        lemma_weighted_sum_vanishes(zs, tail, p);
        lemma_distinct_remove(zs, 0, p);
        assert(us.remove(0) =~= values_at(tail, zs.remove(0)));
        lemma_weighted_sum_vanishes(zs.remove(0), tail, p);
        let w_unit = sum(unit);
        let w_us = weighted_sum(zs, us, p);
        let w_rest = weighted_sum(zs.remove(0), us.remove(0), p);
        lemma_small_mod(0, p);
        lemma_mul_congruent(a[0] as int, a[0] as int, w_unit, 0, pi);
        lemma_mul_congruent(zs[0] as int, zs[0] as int, w_us, 0, pi);
        assert(a[0] * 0 == 0 && zs[0] * 0 == 0);
        lemma_mul_congruent(-1, -1, w_rest, 0, pi);
        assert((-1) * w_rest == -w_rest && (-1) * 0 == 0);
        lemma_add_congruent(zs[0] * w_us, 0, -w_rest, 0, pi);
        assert(zs[0] * w_us + (-w_rest) == zs[0] * w_us - w_rest);
        lemma_add_congruent(a[0] * w_unit, 0, sum(higher), 0, pi);
    }
}

/// The `y` of the shares of the polynomial with the coefficients `coeffs`
/// at the places `xs`, modulo `p`.
pub open spec fn shares_at(coeffs: Seq<nat>, xs: Seq<nat>, p: nat) -> Seq<nat> {
    Seq::new(xs.len(), |j: int| share_at(coeffs, xs[j], p))
}

/// Modulo a prime `p`, the interpolation at zero of the shares of a
/// polynomial gives its constant term, and every denominator has an
/// inverse, where the shares are at least as many as the coefficients and
/// their `x` are different and not zero modulo `p`.
pub proof fn lemma_interpolation_recovers(coeffs: Seq<nat>, xs: Seq<nat>, p: nat)
    requires
        is_prime(p),
        1 <= coeffs.len() <= xs.len(),
        distinct_mod(xs, p),
        nonzero_mod(xs, p),
    ensures
        denominators_invertible(xs, p as int),
        interpolate_at_zero(xs, shares_at(coeffs, xs, p), p as int) == coeffs[0] % p,
{
    let pi = p as int;
    let n = xs.len();
    assert forall|j: int| 0 <= j < n implies invertible(
        #[trigger] basis_denominator(xs, j, pi),
        pi,
    ) by {
        lemma_denominator_invertible(xs, j, p);
    }
    // the shares and the point (0, secret) are nodes of one polynomial
    let zs = seq![0nat] + xs;
    assert forall|i: int, j: int|
        #![trigger zs[i], zs[j]]
        0 <= i < zs.len() && 0 <= j < zs.len() && i != j implies zs[i] % p != zs[j] % p by {
        lemma_small_mod(0, p);
        if i > 0 {
            assert(zs[i] == xs[i - 1]);
        }
        if j > 0 {
            assert(zs[j] == xs[j - 1]);
        }
    }
    lemma_weighted_sum_vanishes(zs, coeffs, p);
    let vs = values_at(coeffs, zs);
    let terms = weighted_terms(zs, vs, p);
    let rest = terms.remove(0);
    lemma_sum_remove(terms, 0);
    let xint = Seq::new(n, |m: int| xs[m] as int);
    let big = product(xint);
    // the term of the point (0, secret), times the product of all x, is the secret
    let f0 = denominator_factors(zs, 0);
    lemma_product_remove(f0, 0);
    assert(f0.remove(0) =~= xint);
    assert(product(f0) == big) by (nonlinear_arith)
        requires
            product(f0) == big * f0[0],
            f0[0] == 1,
    ;
    lemma_denominator_invertible(zs, 0, p);
    let w0 = weight(zs, 0, p);
    assert((big * w0) % pi == 1);
    lemma_poly_eval_horner(coeffs, 0);
    assert(vs[0] == coeffs[0]);
    let secret = coeffs[0] as int;
    assert(big * terms[0] == secret * (big * w0)) by (nonlinear_arith)
        requires
            terms[0] == secret * w0,
    ;
    lemma_small_mod(1, p);
    lemma_mul_congruent(secret, secret, big * w0, 1, pi);
    assert((big * terms[0]) % pi == secret % pi);
    // the term of a share, times the product of all x, is its Lagrange term, negated
    let ys = shares_at(coeffs, xs, p);
    let lag = lagrange_terms(xs, ys, pi);
    let scaled = Seq::new(n, |j: int| big * rest[j]);
    let negated = Seq::new(n, |j: int| -lag[j]);
    assert forall|j: int| #![trigger scaled[j]] 0 <= j < n implies scaled[j] % pi == negated[j]
        % pi by {
        let nf = numerator_factors(xs, j);
        lemma_product_remove(xint, j);
        lemma_product_remove(nf, j);
        assert(nf.remove(j) =~= xint.remove(j));
        let nj = product(nf);
        let others = product(xint.remove(j));
        assert(big == nj * xs[j]) by (nonlinear_arith)
            requires
                big == others * xint[j],
                nj == others * nf[j],
                nf[j] == 1,
                xint[j] == xs[j],
        ;
        lemma_weight_remove(zs, j + 1, 0, p);
        assert(zs.remove(0) =~= xs);
        let w = weight(zs, j + 1, p);
        let wx = weight(xs, j, p);
        let v = vs[j + 1];
        assert(rest[j] == v * w);
        assert(zs[j + 1] == xs[j]);
        let e = zs[0] - zs[j + 1];
        assert((e * w) % pi == wx);
        assert(scaled[j] == (-(v * nj)) * (e * w)) by (nonlinear_arith)
            requires
                scaled[j] == big * (v * w),
                big == nj * xs[j],
                e == 0 - xs[j],
        ;
        lemma_mul_mod_noop_right(-(v * nj), e * w, pi);
        assert(scaled[j] % pi == ((-(v * nj)) * wx) % pi);
        lemma_mod_bound(v, pi);
        assert(ys[j] == v % pi);
        assert(lag[j] == (v % pi) * (((nj % pi) * wx) % pi));
        lemma_mul_mod_noop_left(nj, wx, pi);
        lemma_mul_mod_noop(v, nj * wx, pi);
        assert(lag[j] % pi == (v * (nj * wx)) % pi);
        lemma_mul_congruent(-1, -1, lag[j], v * (nj * wx), pi);
        assert((-1) * lag[j] == negated[j]);
        assert((-1) * (v * (nj * wx)) == (-(v * nj)) * wx) by (nonlinear_arith);
    }
    lemma_sum_congruent(scaled, negated, pi);
    lemma_sum_negated(lag);
    assert(negated =~= Seq::new(lag.len(), |j: int| -lag[j]));
    assert forall|j: int| #![trigger scaled[j]] 0 <= j < n implies scaled[j] == big * rest[j] + 0
        * rest[j] by {}
    lemma_sum_combination(scaled, rest, rest, big, 0);
    assert(sum(scaled) == big * sum(rest));
    // the whole weighted sum is zero, and so is the product of all x times it
    lemma_small_mod(0, p);
    lemma_mul_congruent(big, big, sum(terms), 0, pi);
    assert(big * 0 == 0);
    assert(big * sum(terms) == big * sum(rest) + big * terms[0]) by (nonlinear_arith)
        requires
            sum(terms) == sum(rest) + terms[0],
    ;
    lemma_add_congruent(big * sum(rest), -sum(lag), big * terms[0], secret, pi);
    assert((secret - sum(lag)) % pi == 0);
    lemma_mod_equivalence(secret, sum(lag), pi);
}

/// Any `k` or more shares of a dealing with the threshold `k` give the
/// secret back, modulo a prime `q`: shares with different `x` from 1 up to
/// below `q`, as a dealing of fewer than `q` shares hands them out, in any
/// order.
pub proof fn lemma_shares_recover_secret(
    coeffs: Seq<nat>,
    secret: nat,
    k: nat,
    q: nat,
    xs: Seq<nat>,
)
    requires
        is_prime(q),
        is_dealing(coeffs, secret, k, q),
        xs.len() >= k,
        forall|i: int| 0 <= i < xs.len() ==> 1 <= #[trigger] xs[i] < q,
        forall|i: int, j: int|
            #![trigger xs[i], xs[j]]
            0 <= i < xs.len() && 0 <= j < xs.len() && i != j ==> xs[i] != xs[j],
    ensures
        denominators_invertible(xs, q as int),
        interpolate_at_zero(xs, shares_at(coeffs, xs, q), q as int) == secret,
{
    assert forall|i: int, j: int|
        #![trigger xs[i], xs[j]]
        0 <= i < xs.len() && 0 <= j < xs.len() && i != j implies xs[i] % q != xs[j] % q by {
        lemma_small_mod(xs[i], q);
        lemma_small_mod(xs[j], q);
    }
    assert forall|i: int| 0 <= i < xs.len() implies #[trigger] xs[i] % q != 0 by {
        lemma_small_mod(xs[i], q);
    }
    lemma_interpolation_recovers(coeffs, xs, q);
    lemma_small_mod(secret, q);
}

/// Modulo a prime and for shares with different `x`, the interpolation
/// with Fermat's candidates for the inverses is the interpolation: there
/// the candidates are the inverses.
pub proof fn lemma_fermat_interpolation(xs: Seq<nat>, ys: Seq<nat>, p: nat)
    requires
        is_prime(p),
        distinct_mod(xs, p),
    ensures
        sum(fermat_terms(xs, ys, p as int)) % (p as int) == interpolate_at_zero(xs, ys, p as int),
{
    let pi = p as int;
    let fermat = fermat_terms(xs, ys, pi);
    let exact = lagrange_terms(xs, ys, pi);
    assert forall|j: int| 0 <= j < xs.len() implies fermat[j] == exact[j] by {
        lemma_denominator_invertible(xs, j, p);
        let d = basis_denominator(xs, j, pi);
        lemma_mod_twice(product(denominator_factors(xs, j)), pi);
        lemma_fermat_inverse(d, p);
    }
    assert(fermat =~= exact);
}

/// Modulo a prime, the Lagrange coefficient of a share among shares with
/// different `x` that are not zero is not zero.
pub proof fn lemma_basis_nonzero(xs: Seq<nat>, j: int, p: nat)
    requires
        is_prime(p),
        distinct_mod(xs, p),
        nonzero_mod(xs, p),
        0 <= j < xs.len(),
    ensures
        0 < basis_at_zero(xs, j, p as int) < p,
{
    let pi = p as int;
    let nf = numerator_factors(xs, j);
    assert forall|m: int| #![trigger nf[m]] 0 <= m < nf.len() implies nf[m] % pi != 0 by {
        if m == j {
            lemma_small_mod(1, p);
        } else {
            assert(xs[m] % p != 0);
        }
    }
    lemma_product_nonzero(nf, p);
    lemma_denominator_invertible(xs, j, p);
    let n = basis_numerator(xs, j, pi);
    let d = product(denominator_factors(xs, j));
    let w = weight(xs, j, p);
    lemma_mod_bound(n * w, pi);
    if basis_at_zero(xs, j, pi) == 0 {
        lemma_prime_no_zero_divisors(n, w, p);
        lemma_mod_twice(product(nf), pi);
        assert(w % pi == 0);
        lemma_mul_mod_noop_right(d, w, pi);
        assert(d * 0 == 0);
        lemma_small_mod(0, p);
    }
}

/// Modulo a prime, a share whose `y` is changed changes what the
/// interpolation gives, whatever the other shares are: a changed share among
/// shares that gave the secret gives another number, and no error.
pub proof fn lemma_changed_share_changes_result(xs: Seq<nat>, ys: Seq<nat>, j: int, y: nat, p: nat)
    requires
        is_prime(p),
        distinct_mod(xs, p),
        nonzero_mod(xs, p),
        ys.len() == xs.len(),
        0 <= j < xs.len(),
        y % p != ys[j] % p,
    ensures
        interpolate_at_zero(xs, ys.update(j, y), p as int) != interpolate_at_zero(xs, ys, p as int),
{
    let pi = p as int;
    let before = lagrange_terms(xs, ys, pi);
    let after = lagrange_terms(xs, ys.update(j, y), pi);
    let b = basis_at_zero(xs, j, pi);
    lemma_sum_remove(before, j);
    lemma_sum_remove(after, j);
    assert(after.remove(j) =~= before.remove(j));
    assert(before[j] == ys[j] * b);
    assert(after[j] == y * b);
    if sum(after) % pi == sum(before) % pi {
        lemma_mod_equivalence(sum(after), sum(before), pi);
        assert(sum(after) - sum(before) == (y - ys[j]) * b) by (nonlinear_arith)
            requires
                sum(after) - sum(before) == y * b - ys[j] * b,
        ;
        lemma_prime_no_zero_divisors(y - ys[j], b, p);
        lemma_mod_equivalence(y as int, ys[j] as int, pi);
        lemma_basis_nonzero(xs, j, p);
        lemma_small_mod(b as nat, p);
    }
}

/// Splitting, then reconstructing from any `k` or more of the `n` shares,
/// gives the secret back: for a dealing with the threshold `k` modulo a
/// prime `q` above `n`, the interpolation of the shares at the places
/// `picks`, no place taken twice, is the secret, and every denominator has
/// an inverse.
pub proof fn lemma_split_then_reconstruct(
    coeffs: Seq<nat>,
    secret: nat,
    n: nat,
    k: nat,
    q: nat,
    picks: Seq<int>,
)
    requires
        is_prime(q),
        n < q,
        is_dealing(coeffs, secret, k, q),
        picks.len() >= k,
        forall|i: int| 0 <= i < picks.len() ==> 0 <= #[trigger] picks[i] < n,
        forall|i: int, j: int|
            #![trigger picks[i], picks[j]]
            0 <= i < picks.len() && 0 <= j < picks.len() && i != j ==> picks[i] != picks[j],
    ensures
        denominators_invertible(Seq::new(picks.len(), |i: int| dealt_xs(n)[picks[i]]), q as int),
        interpolate_at_zero(
            Seq::new(picks.len(), |i: int| dealt_xs(n)[picks[i]]),
            Seq::new(picks.len(), |i: int| dealt_ys(coeffs, n, q)[picks[i]]),
            q as int,
        ) == secret,
{
    let xs = Seq::new(picks.len(), |i: int| dealt_xs(n)[picks[i]]);
    let ys = Seq::new(picks.len(), |i: int| dealt_ys(coeffs, n, q)[picks[i]]);
    assert forall|i: int| 0 <= i < xs.len() implies 1 <= #[trigger] xs[i] < q by {
        assert(0 <= picks[i] < n);
    }
    assert forall|i: int, j: int|
        #![trigger xs[i], xs[j]]
        0 <= i < xs.len() && 0 <= j < xs.len() && i != j implies xs[i] != xs[j] by {
        assert(0 <= picks[i] < n && 0 <= picks[j] < n && picks[i] != picks[j]);
    }
    assert forall|i: int| 0 <= i < xs.len() implies ys[i] == shares_at(coeffs, xs, q)[i] by {
        assert(0 <= picks[i] < n);
    }
    assert(ys =~= shares_at(coeffs, xs, q));
    lemma_shares_recover_secret(coeffs, secret, k, q, xs);
}

} // verus!

//! How much fewer shares than the threshold tell of the secret.
//!
//! Modulo a prime, `k - 1` shares with different `x` fit every secret, as
//! long as the coefficients may be any numbers of the field: for each number
//! below the prime there is a polynomial with `k` coefficients that has this
//! number as its constant term and passes through the shares, and there is
//! one such polynomial and no more. So where the coefficients are drawn
//! uniformly from the whole field, as a source handed to
//! `dealer::make_shares_with` can do, `k - 1` shares rule out no secret and
//! every secret is as likely as any other.
//!
//! The dealer's own source, `random::random_biguint_below`, draws no zero.
//! Its dealings are those with no zero among the coefficients above the
//! constant term, and for them the claim is weaker: the one polynomial that
//! fits a secret can have a zero coefficient, and then the shares rule that
//! secret out. With the threshold 2, the share `(x, y)` rules out the
//! secret `y` and no other. That the draws are uniform is a matter of the
//! random source and not stated here.
//!
//! The polynomial is built one point at a time: to a polynomial through the
//! points so far, a multiple of the product of `X - z_i` over those points
//! is added, which leaves the values at those points as they are and sets
//! the value at the new point.

use crate::dealer::is_dealing;
use crate::field::{is_inverse, is_prime, lemma_prime_invertible, lemma_prime_no_zero_divisors};
use crate::polynomial::{lemma_poly_eval_horner, poly_eval, share_at};
use crate::recovery::{
    distinct_mod, lemma_distinct_remove, lemma_leibniz, lemma_weighted_sum_vanishes,
    lemma_weights_vanish, nonzero_mod, ones, shares_at, times_node, values_at, weight,
    weighted_sum, weighted_terms,
};
use crate::field::lemma_mod_inverse_is;
use crate::lagrange::denominator_factors;
use crate::series::{
    lemma_add_congruent, lemma_mul_congruent, lemma_sum_combination, lemma_sum_congruent, product,
    sum,
};
use vstd::arithmetic::div_mod::{
    lemma_mod_add_multiples_vanish, lemma_mod_bound, lemma_mod_equivalence,
    lemma_mod_multiples_vanish, lemma_mod_twice, lemma_small_mod, lemma_sub_mod_noop,
};
use vstd::arithmetic::power::{lemma_pow0, pow};
use vstd::prelude::*;

verus! {

/// The sum of two polynomials with as many coefficients each.
pub open spec fn poly_add(a: Seq<nat>, b: Seq<nat>) -> Seq<nat> {
    Seq::new(a.len(), |i: int| a[i] + b[i])
}

/// The polynomial `a` times the number `c`.
pub open spec fn poly_scale(c: nat, a: Seq<nat>) -> Seq<nat> {
    Seq::new(a.len(), |i: int| c * a[i])
}

/// The polynomial `a` with every coefficient reduced by `p`.
pub open spec fn poly_reduce(a: Seq<nat>, p: nat) -> Seq<nat> {
    Seq::new(a.len(), |i: int| a[i] % p)
}

/// The polynomial `a` times `X + c`.
pub open spec fn mul_linear(a: Seq<nat>, c: nat) -> Seq<nat> {
    poly_add(seq![0nat] + a, poly_scale(c, a.push(0)))
}

/// The product of `X - z` over the nodes `z` in `zs`, with coefficients
/// that are right modulo `p`: each factor is `X + (p - z mod p)`.
pub open spec fn node_poly(zs: Seq<nat>, p: nat) -> Seq<nat>
    decreases zs.len(),
{
    if zs.len() == 0 {
        seq![1nat]
    } else {
        mul_linear(node_poly(zs.drop_last(), p), (p - zs.last() % p) as nat)
    }
}

/// The value of a sum of polynomials is the sum of their values.
pub proof fn lemma_eval_add(a: Seq<nat>, b: Seq<nat>, x: nat)
    requires
        a.len() == b.len(),
    ensures
        poly_eval(poly_add(a, b), x) == poly_eval(a, x) + poly_eval(b, x),
    decreases a.len(),
{
    if a.len() > 0 {
        lemma_eval_add(a.drop_last(), b.drop_last(), x);
        assert(poly_add(a, b).drop_last() =~= poly_add(a.drop_last(), b.drop_last()));
        let e = pow(x as int, (a.len() - 1) as nat);
        assert((a.last() + b.last()) * e == a.last() * e + b.last() * e) by (nonlinear_arith);
    }
}

/// The value of `c` times a polynomial is `c` times its value.
pub proof fn lemma_eval_scale(c: nat, a: Seq<nat>, x: nat)
    ensures
        poly_eval(poly_scale(c, a), x) == c * poly_eval(a, x),
    decreases a.len(),
{
    if a.len() == 0 {
        assert(c * 0 == 0);
    } else {
        lemma_eval_scale(c, a.drop_last(), x);
        assert(poly_scale(c, a).drop_last() =~= poly_scale(c, a.drop_last()));
        let e = pow(x as int, (a.len() - 1) as nat);
        let rest = poly_eval(a.drop_last(), x);
        assert(c * rest + (c * a.last()) * e == c * (rest + a.last() * e)) by (nonlinear_arith);
    }
}

/// Reducing the coefficients by `p` keeps the value modulo `p`.
pub proof fn lemma_eval_reduce(a: Seq<nat>, x: nat, p: nat)
    requires
        p > 0,
    ensures
        poly_eval(poly_reduce(a, p), x) % (p as int) == poly_eval(a, x) % (p as int),
    decreases a.len(),
{
    if a.len() > 0 {
        let pi = p as int;
        lemma_eval_reduce(a.drop_last(), x, p);
        assert(poly_reduce(a, p).drop_last() =~= poly_reduce(a.drop_last(), p));
        let e = pow(x as int, (a.len() - 1) as nat);
        lemma_mod_twice(a.last() as int, pi);
        lemma_mul_congruent((a.last() % p) as int, a.last() as int, e, e, pi);
        lemma_add_congruent(
            poly_eval(poly_reduce(a, p).drop_last(), x),
            poly_eval(a.drop_last(), x),
            (a.last() % p) * e,
            a.last() * e,
            pi,
        );
    }
}

/// The value of `a * (X + c)` is the value of `a` times `x + c`.
pub proof fn lemma_eval_mul_linear(a: Seq<nat>, c: nat, x: nat)
    ensures
        mul_linear(a, c).len() == a.len() + 1,
        poly_eval(mul_linear(a, c), x) == (x + c) * poly_eval(a, x),
{
    let shifted = seq![0nat] + a;
    let padded = a.push(0);
    lemma_eval_add(shifted, poly_scale(c, padded), x);
    lemma_eval_scale(c, padded, x);
    lemma_poly_eval_horner(shifted, x);
    assert(shifted.drop_first() =~= a);
    assert(padded.drop_last() =~= a);
    assert(0 * pow(x as int, a.len()) == 0);
    let v = poly_eval(a, x);
    assert(0 + x * v + c * v == (x + c) * v) by (nonlinear_arith);
}

/// The product of `X - z` over the nodes has one coefficient more than
/// there are nodes.
pub proof fn lemma_node_poly_len(zs: Seq<nat>, p: nat)
    ensures
        node_poly(zs, p).len() == zs.len() + 1,
    decreases zs.len(),
{
    if zs.len() > 0 {
        lemma_node_poly_len(zs.drop_last(), p);
    }
}

/// The factor `x + (p - z mod p)` is zero modulo `p` where `x` is `z`
/// modulo `p`, and only there.
proof fn lemma_factor(x: nat, z: nat, p: nat)
    requires
        p > 0,
    ensures
        z % p < p,
        ((x + (p - z % p)) as int) % (p as int) == 0 <==> x % p == z % p,
{
    let pi = p as int;
    lemma_mod_bound(z as int, pi);
    lemma_mod_add_multiples_vanish(x - z % p, pi);
    lemma_sub_mod_noop(x as int, z as int, pi);
    lemma_sub_mod_noop(x as int, (z % p) as int, pi);
    lemma_mod_twice(z as int, pi);
    lemma_mod_equivalence(x as int, z as int, pi);
}

/// The product of `X - z` over the nodes is zero at each node.
proof fn lemma_node_poly_root(zs: Seq<nat>, i: int, p: nat)
    requires
        p > 0,
        0 <= i < zs.len(),
    ensures
        poly_eval(node_poly(zs, p), zs[i]) % (p as int) == 0,
    decreases zs.len(),
{
    let pi = p as int;
    let front = zs.drop_last();
    let x = zs[i];
    lemma_factor(x, zs.last(), p);
    let c = (p - zs.last() % p) as nat;
    lemma_eval_mul_linear(node_poly(front, p), c, x);
    let inner = poly_eval(node_poly(front, p), x);
    lemma_small_mod(0, p);
    if i == zs.len() - 1 {
        lemma_mul_congruent((x + c) as int, 0, inner, inner, pi);
        assert(0 * inner == 0);
    } else {
        lemma_node_poly_root(front, i, p);
        lemma_mul_congruent((x + c) as int, (x + c) as int, inner, 0, pi);
        assert((x + c) * 0 == 0);
    }
}

/// Modulo a prime, the product of `X - z` over the nodes is not zero
/// away from the nodes.
proof fn lemma_node_poly_nonzero(zs: Seq<nat>, x: nat, p: nat)
    requires
        is_prime(p),
        forall|i: int| 0 <= i < zs.len() ==> #[trigger] zs[i] % p != x % p,
    ensures
        poly_eval(node_poly(zs, p), x) % (p as int) != 0,
    decreases zs.len(),
{
    if zs.len() == 0 {
        assert(node_poly(zs, p).drop_last().len() == 0);
        assert(poly_eval(node_poly(zs, p).drop_last(), x) == 0);
        lemma_pow0(x as int);
        lemma_small_mod(1, p);
    } else {
        let front = zs.drop_last();
        assert forall|i: int| 0 <= i < front.len() implies #[trigger] front[i] % p != x % p by {
            assert(front[i] == zs[i]);
        }
        lemma_node_poly_nonzero(front, x, p);
        assert(zs.last() == zs[zs.len() - 1]);
        lemma_factor(x, zs.last(), p);
        let c = (p - zs.last() % p) as nat;
        lemma_eval_mul_linear(node_poly(front, p), c, x);
        if poly_eval(node_poly(zs, p), x) % (p as int) == 0 {
            lemma_prime_no_zero_divisors((x + c) as int, poly_eval(node_poly(front, p), x), p);
        }
    }
}

/// Modulo a prime, through points with different `z` there is a
/// polynomial with as many coefficients as there are points.
pub proof fn lemma_interpolant_exists(zs: Seq<nat>, vs: Seq<nat>, p: nat) -> (a: Seq<nat>)
    requires
        is_prime(p),
        distinct_mod(zs, p),
        vs.len() == zs.len(),
        zs.len() >= 1,
    ensures
        a.len() == zs.len(),
        forall|i: int|
            0 <= i < zs.len() ==> poly_eval(a, #[trigger] zs[i]) % (p as int) == vs[i] % p,
    decreases zs.len(),
{
    let pi = p as int;
    if zs.len() == 1 {
        let a = seq![vs[0]];
        assert(a.drop_last().len() == 0);
        assert(poly_eval(a.drop_last(), zs[0]) == 0);
        lemma_pow0(zs[0] as int);
        assert(poly_eval(a, zs[0]) == vs[0] * 1);
        a
    } else {
        let m = zs.len() - 1;
        let front = zs.drop_last();
        let x = zs[m];
        assert forall|i: int, j: int|
            #![trigger front[i], front[j]]
            0 <= i < front.len() && 0 <= j < front.len() && i != j implies front[i] % p
            != front[j] % p by {
            assert(front[i] == zs[i] && front[j] == zs[j]);
        }
        let lower = lemma_interpolant_exists(front, vs.drop_last(), p);
        let node = node_poly(front, p);
        lemma_node_poly_len(front, p);
        assert forall|i: int| 0 <= i < front.len() implies #[trigger] front[i] % p != x % p by {
            assert(front[i] == zs[i]);
        }
        lemma_node_poly_nonzero(front, x, p);
        let e = poly_eval(lower, x);
        let nx = poly_eval(node, x);
        lemma_prime_invertible(nx, p);
        let w = choose|w: int| is_inverse(nx, w, pi);
        lemma_mod_bound(vs[m] - e, pi);
        lemma_mod_bound(((vs[m] - e) % pi) * w, pi);
        let c = ((((vs[m] - e) % pi) * w) % pi) as nat;
        let a = poly_add(lower.push(0), poly_scale(c, node));
        assert forall|i: int| 0 <= i < zs.len() implies poly_eval(a, #[trigger] zs[i]) % pi
            == vs[i] % p by {
            let z = zs[i];
            lemma_eval_add(lower.push(0), poly_scale(c, node), z);
            lemma_eval_scale(c, node, z);
            assert(lower.push(0).drop_last() =~= lower);
            assert(0 * pow(z as int, lower.len()) == 0);
            let low = poly_eval(lower, z);
            let nz = poly_eval(node, z);
            assert(poly_eval(a, z) == low + c * nz);
            lemma_small_mod(0, p);
            if i < m {
                assert(front[i] == z);
                assert(vs.drop_last()[i] == vs[i]);
                lemma_node_poly_root(front, i, p);
                lemma_mul_congruent(c as int, c as int, nz, 0, pi);
                assert(c * 0 == 0);
                lemma_add_congruent(low, low, c * nz, 0, pi);
            } else {
                // c * nx is v - e, so e + c * nx is v
                let d = vs[m] - e;
                lemma_mod_twice(d, pi);
                lemma_mul_congruent(d % pi, d, w, w, pi);
                assert((c as int) % pi == (d * w) % pi) by {
                    lemma_mod_twice((d % pi) * w, pi);
                }
                lemma_mul_congruent(c as int, d * w, nx, nx, pi);
                assert((d * w) * nx == d * (nx * w)) by (nonlinear_arith);
                lemma_small_mod(1, p);
                lemma_mul_congruent(d, d, nx * w, 1, pi);
                assert(d * 1 == d);
                lemma_add_congruent(e, e, c * nx, d, pi);
                assert(e + d == vs[m]);
            }
        }
        a
    }
}

/// Modulo a prime, shares with different `x` that are not zero fit every
/// secret below the prime, where the threshold is above their number: some
/// polynomial that `is_dealing` of that secret has these very shares.
///
/// The polynomial is one with coefficients from the whole field and can
/// have a zero among them. A dealer that draws no zero does not hand it out
/// then; see the head of this file.
pub proof fn lemma_fewer_shares_fit_every_secret(xs: Seq<nat>, ys: Seq<nat>, secret: nat, p: nat)
    requires
        is_prime(p),
        distinct_mod(xs, p),
        nonzero_mod(xs, p),
        ys.len() == xs.len(),
        forall|j: int| 0 <= j < ys.len() ==> #[trigger] ys[j] < p,
        secret < p,
    ensures
        exists|coeffs: Seq<nat>|
            #[trigger] is_dealing(coeffs, secret, xs.len() + 1, p) && shares_at(coeffs, xs, p)
                == ys,
{
    let pi = p as int;
    let zs = seq![0nat] + xs;
    let vs = seq![secret] + ys;
    assert forall|i: int, j: int|
        #![trigger zs[i], zs[j]]
        0 <= i < zs.len() && 0 <= j < zs.len() && i != j implies zs[i] % p != zs[j] % p by {
        lemma_small_mod(0, p);
        if i > 0 {
            assert(zs[i] == xs[i - 1]);
        }
        if j > 0 {
            assert(zs[j] == xs[j - 1]);
        }
    }
    let a = lemma_interpolant_exists(zs, vs, p);
    let coeffs = poly_reduce(a, p);
    assert forall|i: int| 0 <= i < coeffs.len() implies #[trigger] coeffs[i] < p by {
        lemma_mod_bound(a[i] as int, pi);
    }
    // the constant term is the value at zero
    lemma_eval_reduce(a, 0, p);
    lemma_poly_eval_horner(coeffs, 0);
    assert(zs[0] == 0 && vs[0] == secret);
    assert(poly_eval(a, zs[0]) % pi == vs[0] % p);
    lemma_small_mod(secret, p);
    lemma_small_mod(coeffs[0], p);
    assert(coeffs[0] == secret);
    assert(is_dealing(coeffs, secret, xs.len() + 1, p));
    assert forall|j: int| 0 <= j < xs.len() implies share_at(coeffs, xs[j], p) == ys[j] by {
        lemma_eval_reduce(a, xs[j], p);
        assert(zs[j + 1] == xs[j] && vs[j + 1] == ys[j]);
        assert(poly_eval(a, zs[j + 1]) % pi == vs[j + 1] % p);
        lemma_small_mod(ys[j], p);
    }
    assert(shares_at(coeffs, xs, p) =~= ys);
}

/// Over as many different nodes as a polynomial has coefficients, the
/// weighted sum of its values is zero modulo `p` only where its highest
/// coefficient is.
proof fn lemma_highest_coefficient(zs: Seq<nat>, a: Seq<nat>, p: nat)
    requires
        is_prime(p),
        distinct_mod(zs, p),
        a.len() == zs.len(),
        zs.len() >= 1,
        weighted_sum(zs, values_at(a, zs), p) % (p as int) == 0,
    ensures
        a.last() % p == 0,
    decreases zs.len(),
{
    let pi = p as int;
    let n = zs.len();
    let whole = weighted_terms(zs, values_at(a, zs), p);
    if n == 1 {
        // the weight of a single node is 1, and the value is the coefficient
        let f = denominator_factors(zs, 0);
        assert(f.drop_last().len() == 0);
        assert(product(f.drop_last()) == 1);
        assert(product(f) == 1);
        lemma_small_mod(1, p);
        assert(is_inverse(1, 1, pi));
        lemma_mod_inverse_is(1, 1, pi);
        assert(a.drop_last().len() == 0);
        assert(poly_eval(a.drop_last(), zs[0]) == 0);
        lemma_pow0(zs[0] as int);
        assert(whole.drop_last().len() == 0);
        assert(sum(whole.drop_last()) == 0);
        assert(whole.last() == (a[0] * 1) * 1);
    } else {
        let tail = a.drop_first();
        let us = values_at(tail, zs);
        let unit = weighted_terms(zs, ones(n), p);
        let higher = weighted_terms(zs, times_node(zs, us), p);
        assert forall|j: int| #![trigger whole[j]] 0 <= j < n implies whole[j] == a[0] * unit[j] + 1
            * higher[j] by {
            lemma_poly_eval_horner(a, zs[j]);
            let (c, z, u, w) = (a[0] as int, zs[j] as int, us[j], weight(zs, j, p));
            assert((c + z * u) * w == c * (1 * w) + 1 * ((z * u) * w)) by (nonlinear_arith);
        }
        lemma_sum_combination(whole, unit, higher, a[0] as int, 1);
        lemma_weights_vanish(zs, p);
        lemma_leibniz(zs, us, 0, p);
        lemma_weighted_sum_vanishes(zs, tail, p);
        lemma_distinct_remove(zs, 0, p);
        assert(us.remove(0) =~= values_at(tail, zs.remove(0)));
        let w_unit = sum(unit);
        let w_us = weighted_sum(zs, us, p);
        let w_rest = weighted_sum(zs.remove(0), us.remove(0), p);
        lemma_small_mod(0, p);
        lemma_mul_congruent(a[0] as int, a[0] as int, w_unit, 0, pi);
        lemma_mul_congruent(zs[0] as int, zs[0] as int, w_us, 0, pi);
        assert(a[0] * 0 == 0 && zs[0] * 0 == 0);
        // the whole sum is the negated sum over the other nodes
        lemma_add_congruent(a[0] * w_unit, 0, sum(higher), zs[0] * w_us - w_rest, pi);
        lemma_add_congruent(zs[0] * w_us, 0, -w_rest, -w_rest, pi);
        assert(zs[0] * w_us + (-w_rest) == zs[0] * w_us - w_rest);
        assert((-w_rest) % pi == 0);
        lemma_mul_congruent(-1, -1, -w_rest, 0, pi);
        assert((-1) * (-w_rest) == w_rest && (-1) * 0 == 0);
        lemma_highest_coefficient(zs.remove(0), tail, p);
        assert(tail.last() == a.last());
    }
}

/// Modulo a prime, a polynomial that is zero at as many different nodes as
/// it has coefficients, or more, has no coefficient that is not zero.
pub proof fn lemma_vanishing_polynomial(zs: Seq<nat>, a: Seq<nat>, p: nat)
    requires
        is_prime(p),
        distinct_mod(zs, p),
        a.len() <= zs.len(),
        forall|j: int| 0 <= j < zs.len() ==> poly_eval(a, #[trigger] zs[j]) % (p as int) == 0,
    ensures
        forall|i: int| 0 <= i < a.len() ==> #[trigger] a[i] % p == 0,
    decreases a.len(),
{
    let pi = p as int;
    if a.len() > 0 {
        let m = a.len() as int;
        let first = zs.take(m);
        assert forall|i: int, j: int|
            #![trigger first[i], first[j]]
            0 <= i < first.len() && 0 <= j < first.len() && i != j implies first[i] % p
            != first[j] % p by {
            assert(first[i] == zs[i] && first[j] == zs[j]);
        }
        let terms = weighted_terms(first, values_at(a, first), p);
        let zeros = Seq::new(first.len(), |j: int| 0int);
        lemma_small_mod(0, p);
        assert forall|j: int| #![trigger terms[j]] 0 <= j < terms.len() implies terms[j] % pi
            == zeros[j] % pi by {
            assert(first[j] == zs[j]);
            let w = weight(first, j, p);
            lemma_mul_congruent(poly_eval(a, first[j]), 0, w, w, pi);
            assert(0 * w == 0);
        }
        lemma_sum_congruent(terms, zeros, pi);
        assert forall|j: int| #![trigger zeros[j]] 0 <= j < zeros.len() implies zeros[j] == 0
            * zeros[j] + 0 * zeros[j] by {}
        lemma_sum_combination(zeros, zeros, zeros, 0, 0);
        lemma_highest_coefficient(first, a, p);
        // without its highest coefficient the polynomial is still zero at the nodes
        let lower = a.drop_last();
        assert forall|j: int| 0 <= j < zs.len() implies poly_eval(lower, #[trigger] zs[j]) % pi
            == 0 by {
            let e = pow(zs[j] as int, (a.len() - 1) as nat);
            lemma_mul_congruent(a.last() as int, 0, e, e, pi);
            assert(0 * e == 0);
            let low = poly_eval(lower, zs[j]);
            lemma_add_congruent(low, low, a.last() * e, 0, pi);
        }
        lemma_vanishing_polynomial(zs, lower, p);
        assert forall|i: int| 0 <= i < a.len() implies #[trigger] a[i] % p == 0 by {
            if i < a.len() - 1 {
                assert(a[i] == lower[i]);
            }
        }
    }
}

/// Modulo a prime, two polynomials that `is_dealing` of one secret with the
/// threshold `k` and have the same `k - 1` shares are the same: the secret
/// and `k - 1` shares fix the polynomial.
pub proof fn lemma_dealing_unique(
    first: Seq<nat>,
    second: Seq<nat>,
    secret: nat,
    xs: Seq<nat>,
    p: nat,
)
    requires
        is_prime(p),
        distinct_mod(xs, p),
        nonzero_mod(xs, p),
        is_dealing(first, secret, xs.len() + 1, p),
        is_dealing(second, secret, xs.len() + 1, p),
        shares_at(first, xs, p) == shares_at(second, xs, p),
    ensures
        first == second,
{
    let pi = p as int;
    let k = xs.len() + 1;
    let zs = seq![0nat] + xs;
    assert forall|i: int, j: int|
        #![trigger zs[i], zs[j]]
        0 <= i < zs.len() && 0 <= j < zs.len() && i != j implies zs[i] % p != zs[j] % p by {
        lemma_small_mod(0, p);
        if i > 0 {
            assert(zs[i] == xs[i - 1]);
        }
        if j > 0 {
            assert(zs[j] == xs[j - 1]);
        }
    }
    // the difference of the two, with `p` added to each coefficient to keep it positive
    let diff = Seq::new(k, |i: int| (first[i] + p - second[i]) as nat);
    let lift = poly_scale(p, Seq::new(k, |i: int| 1nat));
    assert forall|i: int| 0 <= i < k implies #[trigger] second[i] < p && first[i] < p by {}
    assert(poly_add(diff, second) =~= poly_add(first, lift)) by {
        assert forall|i: int| 0 <= i < k implies diff[i] + second[i] == first[i] + lift[i] by {
            assert(second[i] < p);
            assert(lift[i] == p * 1);
        }
    }
    assert forall|j: int| 0 <= j < zs.len() implies poly_eval(diff, #[trigger] zs[j]) % pi
        == 0 by {
        let z = zs[j];
        lemma_eval_add(diff, second, z);
        lemma_eval_add(first, lift, z);
        lemma_eval_scale(p, Seq::new(k, |i: int| 1nat), z);
        let (d, a, b) = (poly_eval(diff, z), poly_eval(first, z), poly_eval(second, z));
        let l = poly_eval(Seq::new(k, |i: int| 1nat), z);
        assert(d + b == a + p * l);
        if j == 0 {
            lemma_poly_eval_horner(first, 0);
            lemma_poly_eval_horner(second, 0);
            assert(a == b);
        } else {
            assert(z == xs[j - 1]);
            assert(shares_at(first, xs, p)[j - 1] == share_at(first, xs[j - 1], p));
            assert(shares_at(second, xs, p)[j - 1] == share_at(second, xs[j - 1], p));
            lemma_mod_bound(a, pi);
            lemma_mod_bound(b, pi);
            assert(a % pi == b % pi);
        }
        lemma_mod_equivalence(a, b, pi);
        lemma_mod_multiples_vanish(l, a - b, pi);
        assert(d == p * l + (a - b));
    }
    lemma_vanishing_polynomial(zs, diff, p);
    assert forall|i: int| 0 <= i < k implies first[i] == second[i] by {
        assert(diff[i] % p == 0);
        assert(second[i] < p && first[i] < p);
        lemma_mod_add_multiples_vanish(first[i] - second[i], pi);
        lemma_mod_equivalence(first[i] as int, second[i] as int, pi);
        lemma_small_mod(first[i], p);
        lemma_small_mod(second[i], p);
    }
    assert(first =~= second);
}

} // verus!

//! Polynomials over the integers modulo a prime: the dealer's secret
//! polynomial, and its evaluation at a point.

use crate::bignum::{big_add, big_clone, big_from_u128, big_mul, big_rem, value, values};
use num_bigint::BigUint;
use vstd::arithmetic::div_mod::{
    lemma_add_mod_noop, lemma_add_mod_noop_right, lemma_mul_mod_noop_left,
    lemma_mul_mod_noop_right,
};
use vstd::arithmetic::power::{lemma_pow0, lemma_pow_adds, lemma_pow1, pow};
use vstd::prelude::*;

verus! {

/// The value at `x` of the polynomial with the coefficients `coeffs`, the
/// constant term first: the sum of `coeffs[i] * x^i`.
pub open spec fn poly_eval(coeffs: Seq<nat>, x: nat) -> int
    decreases coeffs.len(),
{
    if coeffs.len() == 0 {
        0
    } else {
        poly_eval(coeffs.drop_last(), x) + coeffs.last() * pow(x as int, (coeffs.len() - 1) as nat)
    }
}

/// The `y` of the share at `x`: the value of the polynomial at `x`, modulo
/// `q`.
pub open spec fn share_at(coeffs: Seq<nat>, x: nat, q: nat) -> nat {
    (poly_eval(coeffs, x) % (q as int)) as nat
}

/// Horner's rule: a polynomial is its constant term plus `x` times the
/// polynomial of the other coefficients.
pub proof fn lemma_poly_eval_horner(coeffs: Seq<nat>, x: nat)
    requires
        coeffs.len() > 0,
    ensures
        poly_eval(coeffs, x) == coeffs[0] + x * poly_eval(coeffs.drop_first(), x),
    decreases coeffs.len(),
{
    let n = coeffs.len();
    let front = coeffs.drop_last();
    let tail = coeffs.drop_first();
    if n == 1 {
        assert(poly_eval(front, x) == 0);
        assert(poly_eval(tail, x) == 0);
        lemma_pow0(x as int);
    } else {
        lemma_poly_eval_horner(front, x);
        assert(front.drop_first() =~= tail.drop_last());
        assert(front[0] == coeffs[0]);
        assert(tail.last() == coeffs.last());
        let e = (n - 2) as nat;
        lemma_pow_adds(x as int, 1, e);
        lemma_pow1(x as int);
        let inner = poly_eval(tail.drop_last(), x);
        let top = coeffs.last() as int;
        let pe = pow(x as int, e);
        let pn = pow(x as int, (n - 1) as nat);
        assert(poly_eval(tail, x) == inner + top * pe);
        assert(poly_eval(coeffs, x) == poly_eval(front, x) + top * pn);
        assert(x * (inner + top * pe) == x * inner + top * pn) by (nonlinear_arith)
            requires
                pn == x * pe,
        ;
    }
}

/// Whether `c` is a number that `rng_gen` may return when it is handed
/// `prime`, reduced by `prime`.
pub open spec fn drawn_from<F: Fn(&BigUint) -> BigUint>(
    rng_gen: F,
    prime: &BigUint,
    c: nat,
) -> bool {
    exists|drawn: BigUint|
        call_ensures(rng_gen, (prime,), drawn) && c == value(drawn) % value(*prime)
}

/// The dealer's polynomial: its coefficients, the constant term first. The
/// constant term is the secret.
pub struct Polynomial {
    pub coefficients: Vec<BigUint>,
}

impl View for Polynomial {
    type V = Seq<nat>;

    open spec fn view(&self) -> Seq<nat> {
        values(self.coefficients@)
    }
}

impl Polynomial {
    /// A polynomial of the given degree with `secret` as its constant term
    /// and every other coefficient drawn from `rng_gen`, which is handed the
    /// modulus, and reduced by the modulus.
    pub fn new<F: Fn(&BigUint) -> BigUint>(
        secret: &BigUint,
        degree: u32,
        prime: &BigUint,
        rng_gen: F,
    ) -> (r: Self)
        requires
            value(*prime) > 0,
            call_requires(rng_gen, (prime,)),
        ensures
            r@.len() == degree + 1,
            r@[0] == value(*secret),
            forall|i: int| 1 <= i <= degree ==> drawn_from(rng_gen, prime, #[trigger] r@[i]),
    {
        let mut coeffs: Vec<BigUint> = Vec::new();
        coeffs.push(big_clone(secret));
        let mut count: u32 = 0;
        while count < degree
            invariant
                value(*prime) > 0,
                call_requires(rng_gen, (prime,)),
                count <= degree,
                coeffs@.len() == count + 1,
                value(coeffs@[0]) == value(*secret),
                forall|i: int|
                    1 <= i <= count ==> drawn_from(rng_gen, prime, #[trigger] value(coeffs@[i])),
            decreases degree - count,
        {
            let drawn = rng_gen(prime);
            let c = big_rem(&drawn, prime);
            coeffs.push(c);
            count = count + 1;
        }
        let r = Polynomial { coefficients: coeffs };
        proof {
            assert forall|i: int| 1 <= i <= degree implies drawn_from(
                rng_gen,
                prime,
                #[trigger] r@[i],
            ) by {
                assert(r@[i] == value(coeffs@[i]));
            }
        }
        r
    }

    /// The value of the polynomial at `x`, modulo `prime`.
    pub fn evaluate(&self, x: &BigUint, prime: &BigUint) -> (r: BigUint)
        requires
            value(*prime) > 0,
        ensures
            value(r) == poly_eval(self@, value(*x)) % (value(*prime) as int),
    {
        evaluate_polynomial(self.coefficients.as_slice(), x, prime)
    }
}

/// The value at `x`, modulo `prime`, of the polynomial with the coefficients
/// `coeffs`, by Horner's rule: from the highest coefficient down, reduced at
/// every step.
pub fn evaluate_polynomial(coeffs: &[BigUint], x: &BigUint, prime: &BigUint) -> (r: BigUint)
    requires
        value(*prime) > 0,
    ensures
        value(r) == poly_eval(values(coeffs@), value(*x)) % (value(*prime) as int),
{
    let ghost cs = values(coeffs@);
    let ghost xv = value(*x);
    let ghost m = value(*prime) as int;
    let n = coeffs.len();
    let mut result = big_from_u128(0);
    let mut i: usize = n;
    proof {
        assert(cs.subrange(n as int, n as int).len() == 0);
        vstd::arithmetic::div_mod::lemma_small_mod(0, m as nat);
    }
    while i > 0
        invariant
            i <= n,
            n == coeffs@.len(),
            cs == values(coeffs@),
            xv == value(*x),
            m == value(*prime),
            m > 0,
            value(result) == poly_eval(cs.subrange(i as int, n as int), xv) % m,
        decreases i,
    {
        i = i - 1;
        let next = big_rem(&big_add(&big_mul(&result, x), &coeffs[i]), prime);
        proof {
            let tail = cs.subrange(i + 1, n as int);
            let here = cs.subrange(i as int, n as int);
            assert(here.drop_first() =~= tail);
            assert(here[0] == value(coeffs@[i as int]));
            lemma_poly_eval_horner(here, xv);
            let pt = poly_eval(tail, xv);
            let c = here[0] as int;
            // ((pt % m) * x + c) % m == (c + x * pt) % m
            lemma_mul_mod_noop_left(pt, xv as int, m);
            lemma_add_mod_noop((pt % m) * xv, c, m);
            lemma_add_mod_noop(pt * xv, c, m);
            assert(pt * xv + c == c + xv * pt) by (nonlinear_arith);
        }
        result = next;
    }
    proof {
        assert(cs.subrange(0, n as int) =~= cs);
    }
    result
}

/// The value at `x`, modulo `q`, of the polynomial with the coefficients
/// `coeffs`, by summing `coeffs[i] * x^i` from the constant term up. The sum
/// and the power of `x` are both reduced at every step.
pub fn evaluate(coeffs: &[BigUint], x: &BigUint, q: &BigUint) -> (r: BigUint)
    requires
        value(*q) > 0,
    ensures
        value(r) == poly_eval(values(coeffs@), value(*x)) % (value(*q) as int),
{
    let ghost cs = values(coeffs@);
    let ghost xn = value(*x);
    let ghost xv = xn as int;
    let ghost m = value(*q) as int;
    let n = coeffs.len();
    let mut result = big_from_u128(0);
    let mut power = big_rem(&big_from_u128(1), q);
    let mut i: usize = 0;
    proof {
        assert(cs.take(0).len() == 0);
        vstd::arithmetic::div_mod::lemma_small_mod(0, m as nat);
        lemma_pow0(xv);
    }
    while i < n
        invariant
            i <= n,
            n == coeffs@.len(),
            cs == values(coeffs@),
            xn == value(*x),
            xv == xn,
            m == value(*q),
            m > 0,
            value(result) == poly_eval(cs.take(i as int), xn) % m,
            value(power) == pow(xv, i as nat) % m,
        decreases n - i,
    {
        let term = big_mul(&coeffs[i], &power);
        let next = big_rem(&big_add(&result, &term), q);
        let next_power = big_rem(&big_mul(&power, x), q);
        proof {
            let before = cs.take(i as int);
            let after = cs.take(i + 1);
            assert(after.drop_last() =~= before);
            assert(after.last() == value(coeffs@[i as int]));
            let c = after.last() as int;
            let pe = poly_eval(before, xn);
            let px = pow(xv, i as nat);
            assert(poly_eval(after, xn) == pe + c * px);
            // (pe % m + c * (px % m)) % m == (pe + c * px) % m
            lemma_mul_mod_noop_right(c, px, m);
            lemma_add_mod_noop_right(c * (px % m), pe, m);
            lemma_add_mod_noop_right(pe, c * (px % m), m);
            lemma_add_mod_noop_right(pe, c * px, m);
            // ((px % m) * x) % m == pow(x, i + 1) % m
            lemma_mul_mod_noop_left(px, xv, m);
            lemma_pow_adds(xv, i as nat, 1);
            lemma_pow1(xv);
        }
        result = next;
        power = next_power;
        i = i + 1;
    }
    proof {
        assert(cs.take(n as int) =~= cs);
    }
    result
}

} // verus!

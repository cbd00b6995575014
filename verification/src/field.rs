//! Arithmetic modulo a positive number: sums, differences, products, powers
//! and inverses, all with results in `[0, modulus)`.

use crate::bignum::{
    big_add, big_clone, big_eq, big_from_u128, big_modpow, big_mul, big_rem, big_sub, floor_div,
    floor_mod, int_div_floor, int_from_big, int_is_zero, int_mod_floor, int_mul, int_sub,
    int_to_big, int_value, value,
};
use num_bigint::BigInt;
use num_bigint::BigUint;
use vstd::arithmetic::div_mod::*;
use vstd::arithmetic::power::pow;
use vstd::prelude::*;

verus! {

/// `d` divides `n`: `n` is a multiple of `d`.
pub open spec fn divides(d: int, n: int) -> bool {
    exists|k: int| n == #[trigger] (k * d)
}

/// `d` divides both `a` and `b`.
pub open spec fn common_divisor(d: int, a: int, b: int) -> bool {
    divides(d, a) && divides(d, b)
}

/// `g` is a greatest common divisor of `a` and `b`: its divisors are the
/// common divisors of `a` and `b`. This fixes `g` up to its sign.
pub open spec fn is_gcd(g: int, a: int, b: int) -> bool {
    forall|d: int| #[trigger] divides(d, g) <==> common_divisor(d, a, b)
}

/// `p` is a prime number.
pub open spec fn is_prime(p: nat) -> bool {
    &&& p >= 2
    &&& forall|d: int| 1 < d < p ==> !#[trigger] divides(d, p as int)
}

/// `z` is the inverse of `a` modulo `m`: it lies in `[0, m)` and
/// `a * z` is congruent to 1.
pub open spec fn is_inverse(a: int, z: int, m: int) -> bool {
    0 <= z < m && (a * z) % m == 1int % m
}

/// `a` has an inverse modulo `m`.
pub open spec fn invertible(a: int, m: int) -> bool {
    exists|z: int| is_inverse(a, z, m)
}

/// The inverse of `a` modulo `m`, where there is one.
pub open spec fn mod_inverse(a: int, m: int) -> int {
    choose|z: int| is_inverse(a, z, m)
}

/// The absolute value of `a`.
pub open spec fn abs(a: int) -> int {
    if a < 0 {
        -a
    } else {
        a
    }
}

/// What divides `a` and `b` divides `a - q * b` and `a + q * b`.
pub proof fn lemma_divides_combination(d: int, a: int, b: int, q: int)
    requires
        divides(d, a),
        divides(d, b),
    ensures
        divides(d, a - q * b),
        divides(d, a + q * b),
{
    let k1 = choose|k: int| a == #[trigger] (k * d);
    let k2 = choose|k: int| b == #[trigger] (k * d);
    assert(a - q * b == (k1 - q * k2) * d) by (nonlinear_arith)
        requires
            a == k1 * d,
            b == k2 * d,
    ;
    assert(a + q * b == (k1 + q * k2) * d) by (nonlinear_arith)
        requires
            a == k1 * d,
            b == k2 * d,
    ;
}

/// Every number divides itself and zero.
pub proof fn lemma_divides_self(d: int)
    ensures
        divides(d, d),
        divides(d, 0),
{
    assert(d == 1 * d);
    assert(0 == 0 * d);
}

/// The one positive divisor of 1 is 1.
pub proof fn lemma_divides_one(g: int)
    requires
        divides(g, 1),
        g > 0,
    ensures
        g == 1,
{
    let k = choose|k: int| 1 == #[trigger] (k * g);
    assert(g == 1) by (nonlinear_arith)
        requires
            1 == k * g,
            g > 0,
    ;
}

/// One step of Euclid's algorithm keeps the common divisors.
proof fn lemma_euclid_step(a: int, b: int, q: int, r: int)
    requires
        a == q * b + r,
    ensures
        forall|d: int| #[trigger] common_divisor(d, b, r) <==> common_divisor(d, a, b),
{
    assert forall|d: int| #[trigger] common_divisor(d, b, r) <==> common_divisor(d, a, b) by {
        if common_divisor(d, b, r) {
            lemma_divides_combination(d, r, b, q);
            assert(r + q * b == a);
        }
        if common_divisor(d, a, b) {
            lemma_divides_combination(d, a, b, q);
            assert(a - q * b == r);
        }
    }
}

/// Floored division and remainder fit together, and the remainder is
/// smaller than the divisor in absolute value.
proof fn lemma_floor_div_mod(a: int, b: int)
    requires
        b != 0,
    ensures
        a == floor_div(a, b) * b + floor_mod(a, b),
        abs(floor_mod(a, b)) < abs(b),
        b > 0 ==> 0 <= floor_mod(a, b),
        b < 0 ==> floor_mod(a, b) <= 0,
{
    if b > 0 {
        lemma_fundamental_div_mod(a, b);
        lemma_mod_bound(a, b);
        assert(b * (a / b) == (a / b) * b) by (nonlinear_arith);
    } else {
        lemma_fundamental_div_mod(-a, -b);
        lemma_mod_bound(-a, -b);
        assert((-b) * ((-a) / (-b)) == -(((-a) / (-b)) * b)) by (nonlinear_arith);
    }
}

/// The coefficients that Euclid's algorithm finds for `a` and `b`: `(1, 0)`
/// where `b` is zero, and else, with `(x, y)` the coefficients for `b` and
/// the remainder of `a` by `b`, the pair `(y, x - (a / b) * y)`.
pub open spec fn bezout_coefficients(a: int, b: int) -> (int, int)
    decreases abs(b),
    via bezout_coefficients_decreases
{
    if b == 0 {
        (1, 0)
    } else {
        let rest = bezout_coefficients(b, floor_mod(a, b));
        (rest.1, rest.0 - floor_div(a, b) * rest.1)
    }
}

/// The remainder is smaller than the divisor, so `bezout_coefficients`
/// comes to an end.
#[via_fn]
proof fn bezout_coefficients_decreases(a: int, b: int) {
    if b != 0 {
        lemma_floor_div_mod(a, b);
    }
}

/// The extended Euclidean algorithm: a greatest common divisor `g` of `a`
/// and `b`, and the coefficients `x`, `y` of `bezout_coefficients`, for
/// which `a * x + b * y == g`.
///
/// The sign of `g` is that of `b`; where `b` is zero, `g` is `a` and the
/// coefficients are 1 and 0.
pub fn extended_gcd(a: BigInt, b: BigInt) -> (r: (BigInt, BigInt, BigInt))
    ensures
        is_gcd(int_value(r.0), int_value(a), int_value(b)),
        int_value(r.0) == int_value(a) * int_value(r.1) + int_value(b) * int_value(r.2),
        (int_value(r.1), int_value(r.2)) == bezout_coefficients(int_value(a), int_value(b)),
        int_value(b) > 0 ==> int_value(r.0) > 0,
        int_value(b) < 0 ==> int_value(r.0) < 0,
        int_value(b) == 0 ==> int_value(r.0) == int_value(a) && int_value(r.1) == 1 && int_value(
            r.2,
        ) == 0,
{
    let ghost a0 = int_value(a);
    let ghost b0 = int_value(b);
    let mut a = a;
    let mut b = b;
    let mut x0 = int_from_big(big_from_u128(1));
    let mut y0 = int_from_big(big_from_u128(0));
    let mut x1 = int_from_big(big_from_u128(0));
    let mut y1 = int_from_big(big_from_u128(1));
    proof {
        assert(a0 * 1 + b0 * 0 == a0) by (nonlinear_arith);
        assert(a0 * 0 + b0 * 1 == b0) by (nonlinear_arith);
        let start = bezout_coefficients(a0, b0);
        assert(start.0 == 1 * start.0 + 0 * start.1);
        assert(start.1 == 0 * start.0 + 1 * start.1);
    }
    while !int_is_zero(&b)
        invariant
            int_value(a) == a0 * int_value(x0) + b0 * int_value(y0),
            int_value(b) == a0 * int_value(x1) + b0 * int_value(y1),
            forall|d: int|
                #[trigger] common_divisor(d, int_value(a), int_value(b)) <==> common_divisor(
                    d,
                    a0,
                    b0,
                ),
            b0 > 0 ==> int_value(b) >= 0 && (int_value(b) == 0 ==> int_value(a) > 0),
            b0 < 0 ==> int_value(b) <= 0 && (int_value(b) == 0 ==> int_value(a) < 0),
            b0 == 0 ==> int_value(b) == 0 && int_value(a) == a0,
            bezout_coefficients(a0, b0).0 == int_value(x0) * bezout_coefficients(
                int_value(a),
                int_value(b),
            ).0 + int_value(x1) * bezout_coefficients(int_value(a), int_value(b)).1,
            bezout_coefficients(a0, b0).1 == int_value(y0) * bezout_coefficients(
                int_value(a),
                int_value(b),
            ).0 + int_value(y1) * bezout_coefficients(int_value(a), int_value(b)).1,
        decreases abs(int_value(b)),
    {
        let q = int_div_floor(&a, &b);
        let r = int_mod_floor(&a, &b);
        let nx = int_sub(&x0, &int_mul(&q, &x1));
        let ny = int_sub(&y0, &int_mul(&q, &y1));
        proof {
            let av = int_value(a);
            let bv = int_value(b);
            let qv = int_value(q);
            lemma_floor_div_mod(av, bv);
            lemma_euclid_step(av, bv, qv, int_value(r));
            let (x0v, y0v, x1v, y1v) = (int_value(x0), int_value(y0), int_value(x1), int_value(y1));
            assert(av - qv * bv == a0 * (x0v - qv * x1v) + b0 * (y0v - qv * y1v))
                by (nonlinear_arith)
                requires
                    av == a0 * x0v + b0 * y0v,
                    bv == a0 * x1v + b0 * y1v,
            ;
            assert forall|d: int| #[trigger]
                common_divisor(d, bv, int_value(r)) <==> common_divisor(d, a0, b0) by {
                assert(common_divisor(d, bv, int_value(r)) <==> common_divisor(d, av, bv));
            }
            // the coefficients for (a, b) in those for (b, r)
            let here = bezout_coefficients(av, bv);
            let next = bezout_coefficients(bv, int_value(r));
            assert(here == (next.1, next.0 - qv * next.1));
            assert(x0v * here.0 + x1v * here.1 == x1v * next.0 + (x0v - qv * x1v) * next.1)
                by (nonlinear_arith)
                requires
                    here.0 == next.1,
                    here.1 == next.0 - qv * next.1,
            ;
            assert(y0v * here.0 + y1v * here.1 == y1v * next.0 + (y0v - qv * y1v) * next.1)
                by (nonlinear_arith)
                requires
                    here.0 == next.1,
                    here.1 == next.0 - qv * next.1,
            ;
        }
        a = b;
        b = r;
        x0 = x1;
        y0 = y1;
        x1 = nx;
        y1 = ny;
    }
    proof {
        let g = int_value(a);
        assert forall|d: int| #[trigger] divides(d, g) <==> common_divisor(d, a0, b0) by {
            lemma_divides_self(d);
            assert(common_divisor(d, g, 0) <==> divides(d, g));
            assert(common_divisor(d, g, int_value(b)) <==> common_divisor(d, a0, b0));
        }
        let end = bezout_coefficients(g, 0);
        assert(end == (1int, 0int));
        assert(int_value(x0) * 1 + int_value(x1) * 0 == int_value(x0));
        assert(int_value(y0) * 1 + int_value(y1) * 0 == int_value(y0));
    }
    (a, x0, y0)
}

/// The sum of `a` and `b` modulo `m`.
pub fn add_mod(a: &BigUint, b: &BigUint, m: &BigUint) -> (r: BigUint)
    requires
        value(*m) > 0,
    ensures
        value(r) == (value(*a) + value(*b)) % value(*m),
{
    big_rem(&big_add(a, b), m)
}

/// The difference of `a` and `b` modulo `m`. Where `a` is the smaller one
/// the result is still in `[0, m)`: the modulus is added before `b` is taken
/// away.
pub fn sub_mod(a: &BigUint, b: &BigUint, m: &BigUint) -> (r: BigUint)
    requires
        value(*m) > 0,
    ensures
        value(r) == (value(*a) - value(*b)) % (value(*m) as int),
{
    let ar = big_rem(a, m);
    let br = big_rem(b, m);
    let lifted = big_add(&ar, m);
    let r = big_rem(&big_sub(&lifted, &br), m);
    proof {
        let (av, bv, mv) = (value(*a) as int, value(*b) as int, value(*m) as int);
        lemma_mod_bound(av, mv);
        lemma_mod_bound(bv, mv);
        lemma_sub_mod_noop(av, bv, mv);
        lemma_mod_add_multiples_vanish(av % mv - bv % mv, mv);
    }
    r
}

/// The product of `a` and `b` modulo `m`.
pub fn mul_mod(a: &BigUint, b: &BigUint, m: &BigUint) -> (r: BigUint)
    requires
        value(*m) > 0,
    ensures
        value(r) == (value(*a) * value(*b)) % value(*m),
{
    big_rem(&big_mul(a, b), m)
}

/// `base` to the power `exp` modulo `modulus`.
pub fn mod_pow(base: &BigUint, exp: &BigUint, modulus: &BigUint) -> (r: BigUint)
    requires
        value(*modulus) > 0,
    ensures
        value(r) == pow(value(*base) as int, value(*exp)) % (value(*modulus) as int),
{
    big_modpow(base, exp, modulus)
}

/// Fermat's candidate for the inverse of `a` modulo `prime`: `a` to the
/// power `prime - 2`.
///
/// It is the inverse where `prime` is a prime that does not divide `a`; see
/// `fermat::lemma_fermat_inverse`. For any other modulus use `inverse_mod`.
pub fn mod_inv(a: &BigUint, prime: &BigUint) -> (r: BigUint)
    requires
        value(*prime) >= 2,
    ensures
        value(r) == pow(value(*a) as int, (value(*prime) - 2) as nat) % (value(*prime) as int),
{
    let two = big_from_u128(2);
    let exp = big_sub(prime, &two);
    big_modpow(a, &exp, prime)
}

/// At most one number is the inverse of `a` modulo `m`.
pub proof fn lemma_inverse_unique(a: int, z1: int, z2: int, m: int)
    requires
        is_inverse(a, z1, m),
        is_inverse(a, z2, m),
    ensures
        z1 == z2,
{
    // z1 == z1 * (a * z2) == (z1 * a) * z2 == z2, all modulo m
    lemma_mul_mod_noop_right(z1, a * z2, m);
    lemma_mul_mod_noop_right(z2, a * z1, m);
    assert(z1 * (a * z2) == z2 * (a * z1)) by (nonlinear_arith);
    lemma_mul_mod_noop_right(z1, 1, m);
    lemma_mul_mod_noop_right(z2, 1, m);
    assert(z1 * 1 == z1 && z2 * 1 == z2);
    lemma_small_mod(z1 as nat, m as nat);
    lemma_small_mod(z2 as nat, m as nat);
}

/// Where `a` has an inverse modulo `m`, `mod_inverse` is that inverse.
pub proof fn lemma_mod_inverse_is(a: int, z: int, m: int)
    requires
        is_inverse(a, z, m),
    ensures
        invertible(a, m),
        mod_inverse(a, m) == z,
{
    lemma_inverse_unique(a, z, mod_inverse(a, m), m);
}

/// Bezout coefficients for 1 give an inverse.
proof fn lemma_bezout_inverse(a: int, x: int, m: int, y: int)
    requires
        m > 0,
        a * x + m * y == 1,
    ensures
        is_inverse(a, x % m, m),
{
    lemma_mod_bound(x, m);
    lemma_mul_mod_noop_right(a, x, m);
    assert(a * x == m * (-y) + 1) by (nonlinear_arith)
        requires
            a * x + m * y == 1,
    ;
    lemma_mod_multiples_vanish(-y, 1, m);
}

/// A number with an inverse modulo `m` shares no divisor with `m` but 1.
proof fn lemma_invertible_coprime(a: int, m: int, g: int)
    requires
        m > 0,
        g > 0,
        common_divisor(g, a, m),
        invertible(a, m),
    ensures
        g == 1,
{
    let z = choose|z: int| is_inverse(a, z, m);
    let kg = choose|k: int| m == #[trigger] (k * g);
    if m == 1 {
        assert(g == 1) by (nonlinear_arith)
            requires
                1 == kg * g,
                g > 0,
        ;
    } else {
        lemma_small_mod(1, m as nat);
        lemma_fundamental_div_mod(a * z, m);
        let t = (a * z) / m;
        // a * z - m * t == 1, and g divides the left side
        let ka = choose|k: int| a == #[trigger] (k * g);
        assert(1 == (ka * z - kg * t) * g) by (nonlinear_arith)
            requires
                a * z == m * t + 1,
                a == ka * g,
                m == kg * g,
        ;
        lemma_divides_one(g);
    }
}

/// Bezout's identity: natural numbers `a` and `b`, not both zero, have a
/// common divisor `g > 0` that is `a * x + b * y` for some `x` and `y`.
pub proof fn lemma_bezout(a: nat, b: nat) -> (r: (int, int, int))
    requires
        a > 0 || b > 0,
    ensures
        r.0 > 0,
        r.0 == a * r.1 + b * r.2,
        common_divisor(r.0, a as int, b as int),
    decreases b,
{
    if b == 0 {
        lemma_divides_self(a as int);
        assert(a * 1 + b * 0 == a) by (nonlinear_arith);
        (a as int, 1, 0)
    } else {
        let q = (a / b) as int;
        let rem = a % b;
        lemma_fundamental_div_mod(a as int, b as int);
        let (g, x, y) = lemma_bezout(b, rem);
        lemma_divides_combination(g, rem as int, b as int, q);
        assert(rem + q * b == a) by (nonlinear_arith)
            requires
                a == b * q + rem,
        ;
        assert(g == a * y + b * (x - q * y)) by (nonlinear_arith)
            requires
                g == b * x + rem * y,
                a == b * q + rem,
        ;
        (g, y, x - q * y)
    }
}

/// A positive divisor of a positive number is not above it.
pub proof fn lemma_divisor_bound(g: int, n: int)
    requires
        g > 0,
        n > 0,
        divides(g, n),
    ensures
        g <= n,
{
    let k = choose|k: int| n == #[trigger] (k * g);
    assert(g <= n) by (nonlinear_arith)
        requires
            n == k * g,
            g > 0,
            n > 0,
    ;
}

/// A multiple of `p` is zero modulo `p`, and the other way round.
pub proof fn lemma_divides_mod(p: int, n: int)
    requires
        p > 0,
    ensures
        divides(p, n) <==> n % p == 0,
{
    if divides(p, n) {
        let k = choose|k: int| n == #[trigger] (k * p);
        assert(n == p * k + 0) by (nonlinear_arith)
            requires
                n == k * p,
        ;
        lemma_mod_multiples_vanish(k, 0, p);
    }
    if n % p == 0 {
        lemma_fundamental_div_mod(n, p);
        assert(n == (n / p) * p) by (nonlinear_arith)
            requires
                n == p * (n / p) + 0,
        ;
    }
}

/// Modulo a prime every number that is not a multiple of the prime has an
/// inverse.
pub proof fn lemma_prime_invertible(a: int, p: nat)
    requires
        is_prime(p),
        a % (p as int) != 0,
    ensures
        invertible(a, p as int),
{
    let pi = p as int;
    lemma_mod_bound(a, pi);
    let r = (a % pi) as nat;
    let (g, x, y) = lemma_bezout(r, p);
    lemma_divisor_bound(g, pi);
    if g == pi {
        lemma_divides_mod(pi, r as int);
        lemma_small_mod(r, p);
    }
    if 1 < g < pi {
        assert(!divides(g, pi));
    }
    assert(g == 1);
    lemma_bezout_inverse(r as int, x, pi, y);
    let z = x % pi;
    lemma_mul_mod_noop_left(a, z, pi);
    assert(is_inverse(a, z, pi));
}

/// Modulo a prime a product is zero only where a factor is.
pub proof fn lemma_prime_no_zero_divisors(a: int, b: int, p: nat)
    requires
        is_prime(p),
        (a * b) % (p as int) == 0,
    ensures
        a % (p as int) == 0 || b % (p as int) == 0,
{
    let pi = p as int;
    if a % pi != 0 {
        lemma_prime_invertible(a, p);
        let z = choose|z: int| is_inverse(a, z, pi);
        // b == (z * a) * b == z * (a * b) == 0, all modulo p
        lemma_small_mod(1, p);
        assert(z * a == a * z) by (nonlinear_arith);
        lemma_mul_mod_noop_left(z * a, b, pi);
        assert(1 * b == b);
        assert((z * a) * b == z * (a * b)) by (nonlinear_arith);
        lemma_mul_mod_noop_right(z, a * b, pi);
        assert(z * 0 == 0);
        lemma_small_mod(0, p);
    }
}

/// The inverse of `a` modulo `m` by the extended Euclidean algorithm, or
/// `None` where `a` has no inverse: where `a` and `m` share a divisor other
/// than 1.
pub fn inverse_mod(a: &BigUint, m: &BigUint) -> (r: Option<BigUint>)
    requires
        value(*m) > 0,
    ensures
        r is Some <==> invertible(value(*a) as int, value(*m) as int),
        r matches Some(z) ==> value(z) == mod_inverse(value(*a) as int, value(*m) as int),
{
    let ghost av = value(*a) as int;
    let ghost mv = value(*m) as int;
    let m_int = int_from_big(big_clone(m));
    let (g, x, y) = extended_gcd(int_from_big(big_clone(a)), int_from_big(big_clone(m)));
    let ghost gv = int_value(g);
    proof {
        lemma_divides_self(gv);
        assert(common_divisor(gv, av, mv));
    }
    let g_big = match int_to_big(&g) {
        Some(v) => v,
        None => {
            proof {
                assert(false);
            }
            return None;
        },
    };
    if !big_eq(&g_big, &big_from_u128(1)) {
        proof {
            if invertible(av, mv) {
                lemma_invertible_coprime(av, mv, gv);
            }
        }
        return None;
    }
    let reduced = int_mod_floor(&x, &m_int);
    proof {
        lemma_floor_div_mod(int_value(x), mv);
        lemma_bezout_inverse(av, int_value(x), mv, int_value(y));
        lemma_mod_inverse_is(av, int_value(reduced), mv);
    }
    match int_to_big(&reduced) {
        Some(z) => Some(z),
        None => {
            proof {
                assert(false);
            }
            None
        },
    }
}

} // verus!

//! A test of primality that a proof can follow: Pocklington's criterion
//! with one prime factor.
//!
//! Let `n = f * r + 1` with `f` a prime above `r`. If some `a` gives 1 to
//! the power `n - 1` modulo `n`, and `a^r - 1` shares no divisor with `n`,
//! then `n` is a prime. For every prime divisor `d` of `n` then has `f` as a
//! divisor of `d - 1`, so `d` is above the square root of `n`.

use crate::fermat::lemma_fermat;
use crate::field::{
    divides, is_prime, lemma_bezout, lemma_divides_mod, lemma_divides_one, lemma_divisor_bound,
};
use vstd::arithmetic::div_mod::{
    lemma_fundamental_div_mod, lemma_mod_equivalence, lemma_mod_mod, lemma_mod_self_0,
    lemma_mod_twice, lemma_mul_mod_noop, lemma_mul_mod_noop_left, lemma_small_mod,
};
use vstd::arithmetic::power::{
    lemma0_pow, lemma1_pow, lemma_pow1, lemma_pow_adds, lemma_pow_mod_noop,
    lemma_pow_multiplies, pow,
};
use vstd::prelude::*;

verus! {

/// The least divisor of `n` that is not below `k`.
pub open spec fn least_divisor_from(n: nat, k: nat) -> nat
    decreases n - k,
{
    if k >= n || k == 0 {
        n
    } else if n % k == 0 {
        k
    } else {
        least_divisor_from(n, k + 1)
    }
}

/// A divisor of a divisor is a divisor.
pub proof fn lemma_divides_transitive(a: int, b: int, c: int)
    requires
        divides(a, b),
        divides(b, c),
    ensures
        divides(a, c),
{
    let k1 = choose|k: int| b == #[trigger] (k * a);
    let k2 = choose|k: int| c == #[trigger] (k * b);
    assert(c == (k2 * k1) * a) by (nonlinear_arith)
        requires
            b == k1 * a,
            c == k2 * b,
    ;
}

/// The least divisor from `k` on is a divisor, and nothing between `k`
/// and it is one.
proof fn lemma_least_divisor(n: nat, k: nat)
    requires
        2 <= k <= n,
    ensures
        k <= least_divisor_from(n, k) <= n,
        n % least_divisor_from(n, k) == 0,
        forall|j: nat| k <= j < least_divisor_from(n, k) ==> #[trigger] (n % j) != 0,
    decreases n - k,
{
    if k >= n {
        lemma_mod_self_0(n as int);
    } else if n % k != 0 {
        lemma_least_divisor(n, k + 1);
    }
}

/// Every number from 2 on has a prime divisor, and one whose square is not
/// above the number where the number is no prime.
pub proof fn lemma_prime_divisor(n: nat) -> (d: nat)
    requires
        n >= 2,
    ensures
        is_prime(d),
        divides(d as int, n as int),
        d <= n,
        !is_prime(n) ==> d * d <= n,
{
    let d = least_divisor_from(n, 2);
    lemma_least_divisor(n, 2);
    lemma_divides_mod(d as int, n as int);
    assert forall|e: int| 1 < e < d implies !#[trigger] divides(e, d as int) by {
        if divides(e, d as int) {
            lemma_divides_transitive(e, d as int, n as int);
            lemma_divides_mod(e, n as int);
            assert(n % (e as nat) != 0);
        }
    }
    if !is_prime(n) {
        let e = choose|e: int| 1 < e < n && #[trigger] divides(e, n as int);
        lemma_divides_mod(e, n as int);
        assert(n % (e as nat) == 0);
        assert(d <= e);
        let m = n / d;
        lemma_fundamental_div_mod(n as int, d as int);
        assert(n == d * m);
        assert(m >= 2) by (nonlinear_arith)
            requires
                n == d * m,
                d < n,
                d >= 2,
        ;
        assert(m <= n) by (nonlinear_arith)
            requires
                n == d * m,
                d >= 2,
                m >= 2,
        ;
        assert(n == m * d) by (nonlinear_arith)
            requires
                n == d * m,
        ;
        assert(divides(m as int, n as int)) by {
            assert(n as int == (d as int) * (m as int));
        }
        lemma_divides_mod(m as int, n as int);
        assert(m >= d) by {
            if m < d {
                assert(n % m != 0);
            }
        }
        assert(d * d <= n) by (nonlinear_arith)
            requires
                n == d * m,
                m >= d,
        ;
    }
    d
}

/// A remainder by `n`, taken by a divisor of `n`, is the remainder by
/// that divisor.
pub proof fn lemma_mod_of_divisor(x: int, n: int, d: int)
    requires
        d > 0,
        n > 0,
        divides(d, n),
    ensures
        (x % n) % d == x % d,
{
    let k = choose|k: int| n == #[trigger] (k * d);
    assert(k > 0) by (nonlinear_arith)
        requires
            n == k * d,
            n > 0,
            d > 0,
    ;
    assert(n == d * k) by (nonlinear_arith)
        requires
            n == k * d,
    ;
    lemma_mod_mod(x, d, k);
}

/// Where a power of `a` is 1 modulo `d`, so is every power of it.
pub proof fn lemma_power_of_one(a: int, g: nat, j: nat, d: int)
    requires
        d > 1,
        pow(a, g) % d == 1,
    ensures
        pow(a, g * j) % d == 1,
{
    lemma_pow_multiplies(a, g, j);
    lemma_pow_mod_noop(pow(a, g), j, d);
    lemma1_pow(j);
    lemma_small_mod(1, d as nat);
}

/// Where two powers of `a` are 1 modulo `d`, so is the power of a common
/// divisor of the two exponents.
pub proof fn lemma_power_gcd(a: int, m: nat, k: nat, d: int) -> (g: nat)
    requires
        d > 1,
        m >= 1,
        k >= 1,
        pow(a, m) % d == 1,
        pow(a, k) % d == 1,
    ensures
        g >= 1,
        divides(g as int, m as int),
        divides(g as int, k as int),
        pow(a, g) % d == 1,
    decreases m + k,
{
    if m == k {
        assert(m as int == 1 * (m as int));
        m
    } else if m > k {
        let rest = (m - k) as nat;
        lemma_power_difference(a, rest, k, d);
        let g = lemma_power_gcd(a, rest, k, d);
        let k1 = choose|c: int| rest as int == #[trigger] (c * (g as int));
        let k2 = choose|c: int| k as int == #[trigger] (c * (g as int));
        assert(m as int == (k1 + k2) * (g as int)) by (nonlinear_arith)
            requires
                m == rest + k,
                rest as int == k1 * (g as int),
                k as int == k2 * (g as int),
        ;
        g
    } else {
        let rest = (k - m) as nat;
        lemma_power_difference(a, rest, m, d);
        let g = lemma_power_gcd(a, m, rest, d);
        let k1 = choose|c: int| rest as int == #[trigger] (c * (g as int));
        let k2 = choose|c: int| m as int == #[trigger] (c * (g as int));
        assert(k as int == (k1 + k2) * (g as int)) by (nonlinear_arith)
            requires
                k == rest + m,
                rest as int == k1 * (g as int),
                m as int == k2 * (g as int),
        ;
        g
    }
}

/// Where the powers `rest + k` and `k` of `a` are 1 modulo `d`, so is the
/// power `rest`.
proof fn lemma_power_difference(a: int, rest: nat, k: nat, d: int)
    requires
        d > 1,
        pow(a, rest + k) % d == 1,
        pow(a, k) % d == 1,
    ensures
        pow(a, rest) % d == 1,
{
    lemma_pow_adds(a, rest, k);
    lemma_mul_mod_noop(pow(a, rest), pow(a, k), d);
    assert((pow(a, rest) % d) * 1 == pow(a, rest) % d);
    lemma_mod_twice(pow(a, rest), d);
}

/// A divisor of `f * r` that the prime `f` does not divide is a divisor of
/// `r`.
pub proof fn lemma_divisor_without_prime(g: nat, f: nat, r: nat)
    requires
        is_prime(f),
        g >= 1,
        divides(g as int, (f * r) as int),
        !divides(f as int, g as int),
    ensures
        divides(g as int, r as int),
{
    let (x, s, t) = lemma_bezout(f, g);
    lemma_divisor_bound(x, f as int);
    if x == f {
        assert(false);
    }
    if 1 < x < f {
        assert(!divides(x, f as int));
    }
    assert(x == 1);
    let c = choose|c: int| (f * r) as int == #[trigger] (c * (g as int));
    assert(r as int == (c * s + r * t) * (g as int)) by (nonlinear_arith)
        requires
            1 == f * s + g * t,
            (f * r) as int == c * (g as int),
    ;
}

/// Pocklington's criterion with one prime factor: `n = f * r + 1` is a
/// prime where `f` is a prime above `r`, `a^(n-1)` is 1 modulo `n`, and
/// `a^r - 1` shares no divisor with `n`, for which `u` and `v` with
/// `u * (a^r mod n - 1) + v * n == 1` stand.
pub proof fn lemma_pocklington(n: nat, f: nat, r: nat, a: nat, u: int, v: int)
    requires
        is_prime(f),
        n == f * r + 1,
        1 <= r < f,
        pow(a as int, (n - 1) as nat) % (n as int) == 1,
        u * (pow(a as int, r) % (n as int) - 1) + v * n == 1,
    ensures
        is_prime(n),
{
    assert(n >= 3) by (nonlinear_arith)
        requires
            n == f * r + 1,
            1 <= r < f,
    ;
    if !is_prime(n) {
        let ai = a as int;
        let ni = n as int;
        let d = lemma_prime_divisor(n);
        let di = d as int;
        // modulo d, the power n - 1 of a is 1 and the power r is not
        lemma_mod_of_divisor(pow(ai, (n - 1) as nat), ni, di);
        lemma_small_mod(1, d);
        assert(pow(ai, (n - 1) as nat) % di == 1);
        let c = pow(ai, r) % ni;
        lemma_mod_of_divisor(pow(ai, r), ni, di);
        if pow(ai, r) % di == 1 {
            lemma_mod_equivalence(c, 1, di);
            lemma_divides_mod(di, c - 1);
            let k1 = choose|k: int| c - 1 == #[trigger] (k * di);
            let k2 = choose|k: int| ni == #[trigger] (k * di);
            assert(1 == (u * k1 + v * k2) * di) by (nonlinear_arith)
                requires
                    u * (c - 1) + v * ni == 1,
                    c - 1 == k1 * di,
                    ni == k2 * di,
            ;
            lemma_divides_one(di);
        }
        if ai % di == 0 {
            lemma_pow_mod_noop(ai, (n - 1) as nat, di);
            lemma0_pow((n - 1) as nat);
            lemma_small_mod(0, d);
        }
        lemma_fermat(ai, d);
        let g = lemma_power_gcd(ai, (n - 1) as nat, (d - 1) as nat, di);
        if divides(f as int, g as int) {
            lemma_divides_transitive(f as int, g as int, di - 1);
            lemma_divisor_bound(f as int, di - 1);
            assert(false) by (nonlinear_arith)
                requires
                    f <= d - 1,
                    d * d <= n,
                    n == f * r + 1,
                    1 <= r < f,
            ;
        } else {
            lemma_divisor_without_prime(g, f, r);
            let j = choose|j: int| r as int == #[trigger] (j * (g as int));
            assert(j >= 0) by (nonlinear_arith)
                requires
                    r as int == j * (g as int),
                    r >= 1,
                    g >= 1,
            ;
            assert(r == g * (j as nat)) by (nonlinear_arith)
                requires
                    r as int == j * (g as int),
                    j >= 0,
            ;
            lemma_power_of_one(ai, g, j as nat, di);
            assert(false);
        }
    }
}

/// One step of squaring and multiplying modulo `n`: from the power `e` of
/// `base`, which is `x`, to the power `2 * e + bit`, which is `y`.
pub proof fn lemma_power_step(base: int, n: int, e: nat, x: int, bit: nat, y: int)
    requires
        n > 0,
        bit <= 1,
        pow(base, e) % n == x,
        (if bit == 1 {
            x * x * base
        } else {
            x * x
        }) % n == y,
    ensures
        pow(base, 2 * e + bit) % n == y,
{
    lemma_pow_adds(base, e, e);
    lemma_mul_mod_noop(pow(base, e), pow(base, e), n);
    lemma_mod_twice(pow(base, e), n);
    assert((x * x) % n == pow(base, e + e) % n);
    if bit == 1 {
        lemma_pow_adds(base, e + e, 1);
        lemma_pow1(base);
        lemma_mul_mod_noop_left(x * x, base, n);
        lemma_mul_mod_noop_left(pow(base, e + e), base, n);
    }
}

} // verus!

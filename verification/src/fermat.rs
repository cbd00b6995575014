//! Fermat's little theorem: modulo a prime `p`, a number that is not a
//! multiple of `p` gives 1 to the power `p - 1`, so its power `p - 2` is its
//! inverse.
//!
//! The proof is the classical one. The multiples `a, 2a, ..., (p-1)a` are,
//! modulo `p`, the numbers `1, 2, ..., p-1` in another order, so both have
//! the same product; the product of the multiples is also `a^(p-1)` times
//! that product.

use crate::field::{
    is_inverse, is_prime, lemma_mod_inverse_is, lemma_prime_no_zero_divisors, mod_inverse,
};
use crate::series::{lemma_mul_congruent, lemma_product_nonzero, lemma_product_remove, product};
use vstd::arithmetic::div_mod::{
    lemma_mod_bound, lemma_mod_equivalence, lemma_mod_twice, lemma_mul_mod_noop_right,
    lemma_small_mod,
};
use vstd::arithmetic::power::{lemma_pow0, lemma_pow1, lemma_pow_adds, pow};
use vstd::prelude::*;

verus! {

/// The numbers 1, 2, ..., `n`.
pub open spec fn count_up(n: nat) -> Seq<int> {
    Seq::new(n, |i: int| i + 1)
}

/// The first `n` multiples of `a`, reduced by `p`.
pub open spec fn multiples(a: int, n: nat, p: nat) -> Seq<int> {
    Seq::new(n, |i: int| (a * (i + 1)) % (p as int))
}

/// Whether every number of `s` is one of 1, 2, ..., `n`.
pub open spec fn within(s: Seq<int>, n: nat) -> bool {
    forall|i: int| 0 <= i < s.len() ==> 1 <= #[trigger] s[i] <= n
}

/// Whether no number comes twice in `s`.
pub open spec fn no_repeats(s: Seq<int>) -> bool {
    forall|i: int, j: int|
        #![trigger s[i], s[j]]
        0 <= i < s.len() && 0 <= j < s.len() && i != j ==> s[i] != s[j]
}

/// Without its highest number, a sequence of different numbers up to `n`
/// is one of different numbers up to `n - 1`.
proof fn lemma_remove_top(s: Seq<int>, n: nat, t: int)
    requires
        within(s, n),
        no_repeats(s),
        0 <= t < s.len(),
        s[t] == n,
    ensures
        n >= 1,
        within(s.remove(t), (n - 1) as nat),
        no_repeats(s.remove(t)),
{
    let r = s.remove(t);
    assert(1 <= s[t]);
    assert forall|i: int| 0 <= i < r.len() implies 1 <= #[trigger] r[i] <= n - 1 by {
        let i0 = if i < t {
            i
        } else {
            i + 1
        };
        assert(r[i] == s[i0]);
        assert(s[i0] != s[t]);
    }
    assert forall|i: int, j: int|
        #![trigger r[i], r[j]]
        0 <= i < r.len() && 0 <= j < r.len() && i != j implies r[i] != r[j] by {
        let (i0, j0) = (if i < t { i } else { i + 1 }, if j < t { j } else { j + 1 });
        assert(r[i] == s[i0] && r[j] == s[j0]);
    }
}

/// Different numbers out of 1, 2, ..., `n` are at most `n`.
proof fn lemma_pigeonhole(s: Seq<int>, n: nat)
    requires
        within(s, n),
        no_repeats(s),
    ensures
        s.len() <= n,
    decreases n,
{
    if n == 0 {
        if s.len() > 0 {
            assert(1 <= s[0]);
        }
    } else if exists|t: int| 0 <= t < s.len() && s[t] == n {
        let t = choose|t: int| 0 <= t < s.len() && s[t] == n;
        lemma_remove_top(s, n, t);
        lemma_pigeonhole(s.remove(t), (n - 1) as nat);
    } else {
        assert forall|i: int| 0 <= i < s.len() implies 1 <= #[trigger] s[i] <= n - 1 by {
            assert(s[i] != n);
        }
        lemma_pigeonhole(s, (n - 1) as nat);
    }
}

/// `n` different numbers out of 1, 2, ..., `n` have the product of
/// 1, 2, ..., `n`.
proof fn lemma_arrangement_product(s: Seq<int>, n: nat)
    requires
        within(s, n),
        no_repeats(s),
        s.len() == n,
    ensures
        product(s) == product(count_up(n)),
    decreases n,
{
    if n == 0 {
        assert(s =~= count_up(0));
    } else if exists|t: int| 0 <= t < s.len() && s[t] == n {
        let t = choose|t: int| 0 <= t < s.len() && s[t] == n;
        lemma_remove_top(s, n, t);
        lemma_arrangement_product(s.remove(t), (n - 1) as nat);
        lemma_product_remove(s, t);
        assert(count_up(n).drop_last() =~= count_up((n - 1) as nat));
        assert(count_up(n).last() == n);
    } else {
        assert forall|i: int| 0 <= i < s.len() implies 1 <= #[trigger] s[i] <= n - 1 by {
            assert(s[i] != n);
        }
        lemma_pigeonhole(s, (n - 1) as nat);
    }
}

/// The product of the first `n` multiples of `a` is `a^n` times the
/// product of 1, 2, ..., `n`, modulo `p`.
proof fn lemma_multiples_product(a: int, n: nat, p: nat)
    requires
        p > 0,
    ensures
        product(multiples(a, n, p)) % (p as int) == (pow(a, n) * product(count_up(n))) % (
        p as int),
    decreases n,
{
    let pi = p as int;
    if n == 0 {
        lemma_pow0(a);
        assert(multiples(a, 0, p) =~= count_up(0));
        assert(1 * product(count_up(0)) == product(count_up(0)));
    } else {
        let k = (n - 1) as nat;
        lemma_multiples_product(a, k, p);
        assert(multiples(a, n, p).drop_last() =~= multiples(a, k, p));
        assert(multiples(a, n, p).last() == (a * n) % pi);
        assert(count_up(n).drop_last() =~= count_up(k));
        assert(count_up(n).last() == n);
        let mk = product(multiples(a, k, p));
        let fk = product(count_up(k));
        lemma_mod_twice(a * n, pi);
        lemma_mul_congruent(mk, pow(a, k) * fk, (a * n) % pi, a * n, pi);
        lemma_pow_adds(a, 1, k);
        lemma_pow1(a);
        assert((pow(a, k) * fk) * (a * n) == (a * pow(a, k)) * (fk * n)) by (nonlinear_arith);
    }
}

/// Fermat's little theorem.
pub proof fn lemma_fermat(a: int, p: nat)
    requires
        is_prime(p),
        a % (p as int) != 0,
    ensures
        pow(a, (p - 1) as nat) % (p as int) == 1,
{
    let pi = p as int;
    let n = (p - 1) as nat;
    let m = multiples(a, n, p);
    assert forall|i: int| 0 <= i < m.len() implies 1 <= #[trigger] m[i] <= n by {
        lemma_mod_bound(a * (i + 1), pi);
        if (a * (i + 1)) % pi == 0 {
            lemma_prime_no_zero_divisors(a, i + 1, p);
            lemma_small_mod((i + 1) as nat, p);
        }
    }
    assert forall|i: int, j: int|
        #![trigger m[i], m[j]]
        0 <= i < m.len() && 0 <= j < m.len() && i != j implies m[i] != m[j] by {
        if m[i] == m[j] {
            lemma_mod_equivalence(a * (i + 1), a * (j + 1), pi);
            assert(a * (i + 1) - a * (j + 1) == a * (i - j)) by (nonlinear_arith);
            lemma_prime_no_zero_divisors(a, i - j, p);
            lemma_mod_equivalence(i, j, pi);
            lemma_small_mod(i as nat, p);
            lemma_small_mod(j as nat, p);
        }
    }
    lemma_arrangement_product(m, n);
    lemma_multiples_product(a, n, p);
    let f = product(count_up(n));
    let e = pow(a, n);
    assert forall|i: int| #![trigger count_up(n)[i]] 0 <= i < n implies count_up(n)[i] % pi
        != 0 by {
        lemma_small_mod((i + 1) as nat, p);
    }
    lemma_product_nonzero(count_up(n), p);
    // e * f and f are congruent, so (e - 1) * f is zero
    lemma_mod_equivalence(e * f, f, pi);
    assert(e * f - f == (e - 1) * f) by (nonlinear_arith);
    lemma_prime_no_zero_divisors(e - 1, f, p);
    lemma_mod_equivalence(e, 1, pi);
    lemma_small_mod(1, p);
}

/// Modulo a prime `p`, the power `p - 2` of a number that is not a multiple
/// of `p` is its inverse.
pub proof fn lemma_fermat_inverse(a: int, p: nat)
    requires
        is_prime(p),
        a % (p as int) != 0,
    ensures
        is_inverse(a, pow(a, (p - 2) as nat) % (p as int), p as int),
        mod_inverse(a, p as int) == pow(a, (p - 2) as nat) % (p as int),
{
    let pi = p as int;
    let e = pow(a, (p - 2) as nat);
    lemma_fermat(a, p);
    lemma_pow_adds(a, 1, (p - 2) as nat);
    lemma_pow1(a);
    lemma_mul_mod_noop_right(a, e, pi);
    lemma_mod_bound(e, pi);
    lemma_small_mod(1, p);
    lemma_mod_inverse_is(a, e % pi, pi);
}

} // verus!

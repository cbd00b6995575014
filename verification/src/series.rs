//! Sums and products over sequences of integers, and what holds of them
//! modulo a number.

use crate::field::{is_prime, lemma_prime_no_zero_divisors};
use vstd::arithmetic::div_mod::{lemma_add_mod_noop, lemma_mul_mod_noop, lemma_small_mod};
use vstd::prelude::*;

verus! {

/// The product of the numbers of a sequence; 1 for the empty one.
pub open spec fn product(s: Seq<int>) -> int
    decreases s.len(),
{
    if s.len() == 0 {
        1
    } else {
        product(s.drop_last()) * s.last()
    }
}

/// The sum of the numbers of a sequence.
pub open spec fn sum(s: Seq<int>) -> int
    decreases s.len(),
{
    if s.len() == 0 {
        0
    } else {
        sum(s.drop_last()) + s.last()
    }
}

/// A product grows by one factor at a time.
pub proof fn lemma_product_take(s: Seq<int>, i: int)
    requires
        0 <= i < s.len(),
    ensures
        product(s.take(i + 1)) == product(s.take(i)) * s[i],
{
    assert(s.take(i + 1).drop_last() =~= s.take(i));
}

/// A sum grows by one term at a time.
pub proof fn lemma_sum_take(s: Seq<int>, i: int)
    requires
        0 <= i < s.len(),
    ensures
        sum(s.take(i + 1)) == sum(s.take(i)) + s[i],
{
    assert(s.take(i + 1).drop_last() =~= s.take(i));
}

/// A sum is the sum without one term, plus that term.
pub proof fn lemma_sum_remove(s: Seq<int>, t: int)
    requires
        0 <= t < s.len(),
    ensures
        sum(s) == sum(s.remove(t)) + s[t],
    decreases s.len(),
{
    if t == s.len() - 1 {
        assert(s.remove(t) =~= s.drop_last());
    } else {
        lemma_sum_remove(s.drop_last(), t);
        assert(s.remove(t).drop_last() =~= s.drop_last().remove(t));
        assert(s.remove(t).last() == s.last());
    }
}

/// A product is the product without one factor, times that factor.
pub proof fn lemma_product_remove(s: Seq<int>, t: int)
    requires
        0 <= t < s.len(),
    ensures
        product(s) == product(s.remove(t)) * s[t],
    decreases s.len(),
{
    if t == s.len() - 1 {
        assert(s.remove(t) =~= s.drop_last());
    } else {
        lemma_product_remove(s.drop_last(), t);
        assert(s.remove(t).drop_last() =~= s.drop_last().remove(t));
        assert(s.remove(t).last() == s.last());
        let inner = product(s.drop_last().remove(t));
        assert((inner * s[t]) * s.last() == (inner * s.last()) * s[t]) by (nonlinear_arith);
    }
}

/// Sums of terms that are congruent one by one are congruent.
pub proof fn lemma_sum_congruent(a: Seq<int>, b: Seq<int>, p: int)
    requires
        p > 0,
        a.len() == b.len(),
        forall|j: int| #![trigger a[j]] 0 <= j < a.len() ==> a[j] % p == b[j] % p,
    ensures
        sum(a) % p == sum(b) % p,
    decreases a.len(),
{
    if a.len() > 0 {
        let (af, bf) = (a.drop_last(), b.drop_last());
        assert forall|j: int| #![trigger af[j]] 0 <= j < af.len() implies af[j] % p == bf[j]
            % p by {
            assert(af[j] == a[j] && bf[j] == b[j]);
        }
        lemma_sum_congruent(af, bf, p);
        assert(a.last() == a[a.len() - 1]);
        lemma_add_mod_noop(sum(af), a.last(), p);
        lemma_add_mod_noop(sum(bf), b.last(), p);
    }
}

/// The sum of the terms `c1 * a[j] + c2 * b[j]` is `c1` times the sum of
/// `a` plus `c2` times the sum of `b`.
pub proof fn lemma_sum_combination(s: Seq<int>, a: Seq<int>, b: Seq<int>, c1: int, c2: int)
    requires
        s.len() == a.len(),
        s.len() == b.len(),
        forall|j: int| #![trigger s[j]] 0 <= j < s.len() ==> s[j] == c1 * a[j] + c2 * b[j],
    ensures
        sum(s) == c1 * sum(a) + c2 * sum(b),
    decreases s.len(),
{
    if s.len() == 0 {
        assert(c1 * 0 + c2 * 0 == 0);
    } else {
        let (sf, af, bf) = (s.drop_last(), a.drop_last(), b.drop_last());
        assert forall|j: int| #![trigger sf[j]] 0 <= j < sf.len() implies sf[j] == c1 * af[j] + c2
            * bf[j] by {
            assert(sf[j] == s[j] && af[j] == a[j] && bf[j] == b[j]);
        }
        lemma_sum_combination(sf, af, bf, c1, c2);
        assert(s.last() == s[s.len() - 1]);
        let (x, y) = (a.last(), b.last());
        let (sa, sb) = (sum(af), sum(bf));
        assert(c1 * (sa + x) + c2 * (sb + y) == (c1 * sa + c2 * sb) + (c1 * x + c2 * y))
            by (nonlinear_arith);
    }
}

/// Modulo a prime a product of factors that are not zero is not zero.
pub proof fn lemma_product_nonzero(f: Seq<int>, p: nat)
    requires
        is_prime(p),
        forall|i: int| #![trigger f[i]] 0 <= i < f.len() ==> f[i] % (p as int) != 0,
    ensures
        product(f) % (p as int) != 0,
    decreases f.len(),
{
    if f.len() == 0 {
        lemma_small_mod(1, p);
    } else {
        let front = f.drop_last();
        assert forall|i: int| #![trigger front[i]] 0 <= i < front.len() implies front[i] % (
        p as int) != 0 by {
            assert(front[i] == f[i]);
        }
        lemma_product_nonzero(front, p);
        assert(f.last() == f[f.len() - 1]);
        if product(f) % (p as int) == 0 {
            lemma_prime_no_zero_divisors(product(front), f.last(), p);
        }
    }
}

/// Products of congruent factors are congruent.
pub proof fn lemma_mul_congruent(a: int, b: int, c: int, d: int, p: int)
    requires
        p > 0,
        a % p == b % p,
        c % p == d % p,
    ensures
        (a * c) % p == (b * d) % p,
{
    lemma_mul_mod_noop(a, c, p);
    lemma_mul_mod_noop(b, d, p);
}

/// Sums of congruent terms are congruent.
pub proof fn lemma_add_congruent(a: int, b: int, c: int, d: int, p: int)
    requires
        p > 0,
        a % p == b % p,
        c % p == d % p,
    ensures
        (a + c) % p == (b + d) % p,
{
    lemma_add_mod_noop(a, c, p);
    lemma_add_mod_noop(b, d, p);
}

/// The sum of the negated terms is the negated sum.
pub proof fn lemma_sum_negated(s: Seq<int>)
    ensures
        sum(Seq::new(s.len(), |j: int| -s[j])) == -sum(s),
{
    let neg = Seq::new(s.len(), |j: int| -s[j]);
    assert forall|j: int| #![trigger neg[j]] 0 <= j < neg.len() implies neg[j] == (-1) * s[j] + 0
        * s[j] by {}
    lemma_sum_combination(neg, s, s, -1, 0);
}

} // verus!

//! The dealer: from a secret to shares, and to the commitments that go with
//! them.
//!
//! The dealer draws a polynomial of degree `k - 1` with the secret as its
//! constant term and hands out its values at `x = 1, 2, ..., n`. It never
//! hands out the value at zero, which is the secret. The polynomial lives
//! only for the time of the dealing.
//!
//! The coefficients above the constant term come from
//! `random::random_biguint_below`, which draws from `[1, q)` and so never a
//! zero; `make_shares_with` takes them from a source of the caller's, which
//! can draw from all of `[0, q)`.

use crate::bignum::{big_clone, big_from_u128, big_lt, value, values};
use crate::error::Error;
use crate::feldman::{commitments_of, generate_commitments};
use crate::lagrange::{share_xs, share_ys};
use crate::polynomial::{drawn_from, evaluate_polynomial, poly_eval, share_at, Polynomial};
use crate::random::random_biguint_below;
use num_bigint::BigUint;
use vstd::arithmetic::div_mod::lemma_mod_bound;
use vstd::prelude::*;

verus! {

/// The `x` of the `n` shares of a dealing: 1, 2, ..., `n`.
pub open spec fn dealt_xs(n: nat) -> Seq<nat> {
    Seq::new(n, |i: int| (i + 1) as nat)
}

/// The `y` of the `n` shares of a dealing.
pub open spec fn dealt_ys(coeffs: Seq<nat>, n: nat, q: nat) -> Seq<nat> {
    Seq::new(n, |i: int| share_at(coeffs, (i + 1) as nat, q))
}

/// Whether `coeffs` can be the polynomial of a dealing of `secret` with the
/// threshold `k`: `k` coefficients below `q`, the first of them the secret.
pub open spec fn is_dealing(coeffs: Seq<nat>, secret: nat, k: nat, q: nat) -> bool {
    &&& coeffs.len() == k
    &&& k >= 1
    &&& coeffs[0] == secret
    &&& forall|i: int| 0 <= i < k ==> #[trigger] coeffs[i] < q
}

/// Whether no coefficient above the constant term is zero, as it is for a
/// polynomial that the dealer has drawn from `[1, q)`.
pub open spec fn drawn_without_zero(coeffs: Seq<nat>) -> bool {
    forall|i: int| 1 <= i < coeffs.len() ==> #[trigger] coeffs[i] != 0
}

/// Whether `n` shares with the threshold `k` can be dealt.
pub open spec fn valid_threshold(n: nat, k: nat) -> bool {
    1 <= k <= n
}

/// Whether `e` is the error that a dealing of `secret` into `n` shares with
/// the threshold `k` modulo `q` can end with: `InvalidThreshold` unless
/// `1 <= k <= n`, else `SecretTooLarge` unless the secret is below `q`, else
/// `RandomSourceFailed`, which takes a threshold of more than one.
pub open spec fn dealing_failure(e: Error, secret: nat, n: nat, k: nat, q: nat) -> bool {
    &&& e == Error::InvalidThreshold <==> !valid_threshold(n, k)
    &&& e == Error::SecretTooLarge <==> valid_threshold(n, k) && secret >= q
    &&& e == Error::RandomSourceFailed <==> valid_threshold(n, k) && secret < q && k >= 2
}

/// Whether a dealing of `secret` into `n` shares with the threshold `k`
/// modulo `q` must fail.
pub open spec fn dealing_refused(secret: nat, n: nat, k: nat, q: nat) -> bool {
    !valid_threshold(n, k) || secret >= q
}

/// Whether `shares` are the shares of a dealing of `secret`: the values at
/// 1, 2, ..., `n` of some polynomial that `is_dealing` and is
/// `drawn_without_zero`.
pub open spec fn are_dealt_shares(
    shares: Seq<(BigUint, BigUint)>,
    secret: nat,
    n: nat,
    k: nat,
    q: nat,
) -> bool {
    exists|coeffs: Seq<nat>|
        {
            &&& #[trigger] is_dealing(coeffs, secret, k, q)
            &&& drawn_without_zero(coeffs)
            &&& share_xs(shares) == dealt_xs(n)
            &&& share_ys(shares) == dealt_ys(coeffs, n, q)
        }
}

/// Whether `shares` and `commitments` are those of a dealing of `secret`:
/// the shares and the commitments of one polynomial that `is_dealing` and
/// is `drawn_without_zero`.
pub open spec fn is_dealt(
    shares: Seq<(BigUint, BigUint)>,
    commitments: Seq<BigUint>,
    secret: nat,
    n: nat,
    k: nat,
    g: nat,
    p: nat,
    q: nat,
) -> bool {
    exists|coeffs: Seq<nat>|
        {
            &&& #[trigger] is_dealing(coeffs, secret, k, q)
            &&& drawn_without_zero(coeffs)
            &&& share_xs(shares) == dealt_xs(n)
            &&& share_ys(shares) == dealt_ys(coeffs, n, q)
            &&& values(commitments) == commitments_of(coeffs, g, p)
        }
}

/// The coefficients of a random polynomial of the given degree with
/// `secret` as its constant term.
fn draw_coefficients(secret: &BigUint, degree: u64, prime: &BigUint) -> (r: Result<
    Vec<BigUint>,
    Error,
>)
    ensures
        degree == 0 ==> r is Ok,
        r matches Ok(coeffs) ==> {
            &&& coeffs@.len() == degree + 1
            &&& value(coeffs@[0]) == value(*secret)
            &&& forall|i: int| 1 <= i <= degree ==> 0 < value(#[trigger] coeffs@[i]) < value(*prime)
        },
        r matches Err(e) ==> e == Error::RandomSourceFailed,
{
    let mut coeffs: Vec<BigUint> = Vec::new();
    coeffs.push(big_clone(secret));
    let mut count: u64 = 0;
    while count < degree
        invariant
            count <= degree,
            coeffs@.len() == count + 1,
            value(coeffs@[0]) == value(*secret),
            forall|i: int| 1 <= i <= count ==> 0 < value(#[trigger] coeffs@[i]) < value(*prime),
        decreases degree - count,
    {
        match random_biguint_below(prime) {
            Some(c) => {
                coeffs.push(c);
            },
            None => {
                return Err(Error::RandomSourceFailed);
            },
        }
        count = count + 1;
    }
    Ok(coeffs)
}

/// The coefficients of a random polynomial of the given degree with
/// `secret` as its constant term: every other coefficient is drawn from
/// `[1, prime)`.
///
/// It fails with `RandomSourceFailed` where a draw fails, which no
/// polynomial of degree zero can.
pub fn generate_polynomial(secret: &BigUint, degree: u32, prime: &BigUint) -> (r: Result<
    Vec<BigUint>,
    Error,
>)
    ensures
        degree == 0 ==> r is Ok,
        r matches Ok(coeffs) ==> {
            &&& coeffs@.len() == degree + 1
            &&& value(coeffs@[0]) == value(*secret)
            &&& forall|i: int| 1 <= i <= degree ==> 0 < value(#[trigger] coeffs@[i]) < value(*prime)
        },
        r matches Err(e) ==> e == Error::RandomSourceFailed,
{
    draw_coefficients(secret, degree as u64, prime)
}

/// The `n` shares of a polynomial: its values modulo `q` at
/// `x = 1, 2, ..., n`, in that order.
pub fn deal_shares(coeffs: &[BigUint], n: u64, q: &BigUint) -> (r: Vec<(BigUint, BigUint)>)
    requires
        value(*q) > 0,
    ensures
        share_xs(r@) == dealt_xs(n as nat),
        share_ys(r@) == dealt_ys(values(coeffs@), n as nat, value(*q)),
{
    let mut shares: Vec<(BigUint, BigUint)> = Vec::new();
    let mut i: u64 = 0;
    while i < n
        invariant
            i <= n,
            value(*q) > 0,
            shares@.len() == i,
            forall|k: int| 0 <= k < i ==> value((#[trigger] shares@[k]).0) == k + 1,
            forall|k: int|
                0 <= k < i ==> value((#[trigger] shares@[k]).1) == share_at(
                    values(coeffs@),
                    (k + 1) as nat,
                    value(*q),
                ),
        decreases n - i,
    {
        i = i + 1;
        let x = big_from_u128(i as u128);
        let y = evaluate_polynomial(coeffs, &x, q);
        proof {
            lemma_mod_bound(poly_eval(values(coeffs@), value(x)), value(*q) as int);
        }
        shares.push((x, y));
    }
    proof {
        assert(share_xs(shares@) =~= dealt_xs(n as nat));
        assert(share_ys(shares@) =~= dealt_ys(values(coeffs@), n as nat, value(*q)));
    }
    shares
}

/// Checks the threshold and the size of the secret, then draws the
/// polynomial of a dealing.
fn draw_dealing(secret: &BigUint, n: u64, k: u64, q: &BigUint) -> (r: Result<Vec<BigUint>, Error>)
    ensures
        r matches Ok(coeffs) ==> is_dealing(values(coeffs@), value(*secret), k as nat, value(*q))
            && drawn_without_zero(values(coeffs@)),
        r matches Err(e) ==> dealing_failure(e, value(*secret), n as nat, k as nat, value(*q)),
        dealing_refused(value(*secret), n as nat, k as nat, value(*q)) ==> r is Err,
        k == 1 && !dealing_refused(value(*secret), n as nat, k as nat, value(*q)) ==> r is Ok,
{
    if k == 0 || k > n {
        return Err(Error::InvalidThreshold);
    }
    if !big_lt(secret, q) {
        return Err(Error::SecretTooLarge);
    }
    match draw_coefficients(secret, k - 1, q) {
        Ok(coeffs) => {
            proof {
                let cs = values(coeffs@);
                assert forall|i: int| 0 <= i < k implies #[trigger] cs[i] < value(*q) by {
                    if i > 0 {
                        assert(value(coeffs@[i]) < value(*q));
                    }
                }
                assert forall|i: int| 1 <= i < cs.len() implies #[trigger] cs[i] != 0 by {
                    assert(0 < value(coeffs@[i]));
                }
            }
            Ok(coeffs)
        },
        Err(e) => Err(e),
    }
}

/// Splits `secret` into `n` shares of which any `k` give it back, with the
/// commitments that let each holder check a share: the shares of a random
/// polynomial of degree `k - 1` modulo `q`, and `g^a mod p` for each of its
/// coefficients `a`.
///
/// It fails with `InvalidThreshold` unless `1 <= k <= n`, else with
/// `SecretTooLarge` unless the secret is below `q`, and with
/// `RandomSourceFailed` where the random source does. With a threshold of 1
/// nothing is drawn.
pub fn split(secret: &BigUint, n: u64, k: u64, g: &BigUint, p: &BigUint, q: &BigUint) -> (r:
    Result<(Vec<(BigUint, BigUint)>, Vec<BigUint>), Error>)
    requires
        value(*p) > 0,
    ensures
        r matches Ok(dealt) ==> is_dealt(
            dealt.0@,
            dealt.1@,
            value(*secret),
            n as nat,
            k as nat,
            value(*g),
            value(*p),
            value(*q),
        ),
        r matches Err(e) ==> dealing_failure(e, value(*secret), n as nat, k as nat, value(*q)),
        dealing_refused(value(*secret), n as nat, k as nat, value(*q)) ==> r is Err,
        k == 1 && !dealing_refused(value(*secret), n as nat, k as nat, value(*q)) ==> r is Ok,
{
    match draw_dealing(secret, n, k, q) {
        Ok(coeffs) => {
            let commitments = generate_commitments(coeffs.as_slice(), g, p);
            let shares = deal_shares(coeffs.as_slice(), n, q);
            proof {
                assert(is_dealing(values(coeffs@), value(*secret), k as nat, value(*q)));
                assert(drawn_without_zero(values(coeffs@)));
            }
            Ok((shares, commitments))
        },
        Err(e) => Err(e),
    }
}

/// `split` for counts of 32 bits.
pub fn make_shares(secret: &BigUint, n: u32, k: u32, g: &BigUint, p: &BigUint, q: &BigUint) -> (r:
    Result<(Vec<(BigUint, BigUint)>, Vec<BigUint>), Error>)
    requires
        value(*p) > 0,
    ensures
        r matches Ok(dealt) ==> is_dealt(
            dealt.0@,
            dealt.1@,
            value(*secret),
            n as nat,
            k as nat,
            value(*g),
            value(*p),
            value(*q),
        ),
        r matches Err(e) ==> dealing_failure(e, value(*secret), n as nat, k as nat, value(*q)),
        dealing_refused(value(*secret), n as nat, k as nat, value(*q)) ==> r is Err,
        k == 1 && !dealing_refused(value(*secret), n as nat, k as nat, value(*q)) ==> r is Ok,
{
    split(secret, n as u64, k as u64, g, p, q)
}

/// Splits `secret` into `n` shares of which any `k` give it back, without
/// commitments: the shares of a random polynomial of degree `k - 1` modulo
/// `prime`. It fails as `split` does.
pub fn generate_shares(secret: &BigUint, n: u32, k: u32, prime: &BigUint) -> (r: Result<
    Vec<(BigUint, BigUint)>,
    Error,
>)
    ensures
        r matches Ok(shares) ==> are_dealt_shares(
            shares@,
            value(*secret),
            n as nat,
            k as nat,
            value(*prime),
        ),
        r matches Err(e) ==> dealing_failure(e, value(*secret), n as nat, k as nat, value(*prime)),
        dealing_refused(value(*secret), n as nat, k as nat, value(*prime)) ==> r is Err,
        k == 1 && !dealing_refused(value(*secret), n as nat, k as nat, value(*prime)) ==> r is Ok,
{
    match draw_dealing(secret, n as u64, k as u64, prime) {
        Ok(coeffs) => {
            let shares = deal_shares(coeffs.as_slice(), n as u64, prime);
            proof {
                assert(is_dealing(values(coeffs@), value(*secret), k as nat, value(*prime)));
                assert(drawn_without_zero(values(coeffs@)));
            }
            Ok(shares)
        },
        Err(e) => Err(e),
    }
}

/// Whether `shares` and `commitments` are those of a dealing of `secret`
/// with the coefficients above the constant term drawn from `rng_gen`.
pub open spec fn is_dealt_from<F: Fn(&BigUint) -> BigUint>(
    shares: Seq<(BigUint, BigUint)>,
    commitments: Seq<BigUint>,
    secret: nat,
    n: nat,
    k: nat,
    g: nat,
    p: nat,
    q: &BigUint,
    rng_gen: F,
) -> bool {
    exists|coeffs: Seq<nat>|
        {
            &&& #[trigger] is_dealing(coeffs, secret, k, value(*q))
            &&& forall|i: int| 1 <= i < k ==> drawn_from(rng_gen, q, #[trigger] coeffs[i])
            &&& share_xs(shares) == dealt_xs(n)
            &&& share_ys(shares) == dealt_ys(coeffs, n, value(*q))
            &&& values(commitments) == commitments_of(coeffs, g, p)
        }
}

/// `make_shares` with a random source of the caller's: each coefficient
/// above the constant term is what `rng_gen` returns for `q`, reduced by
/// `q`. A source with a fixed sequence gives a fixed dealing.
///
/// It fails with `InvalidThreshold` unless `1 <= k <= n`, else with
/// `SecretTooLarge` unless the secret is below `q`, and not otherwise.
pub fn make_shares_with<F: Fn(&BigUint) -> BigUint>(
    secret: &BigUint,
    n: u32,
    k: u32,
    g: &BigUint,
    p: &BigUint,
    q: &BigUint,
    rng_gen: F,
) -> (r: Result<(Vec<(BigUint, BigUint)>, Vec<BigUint>), Error>)
    requires
        value(*p) > 0,
        call_requires(rng_gen, (q,)),
    ensures
        r is Err <==> dealing_refused(value(*secret), n as nat, k as nat, value(*q)),
        r matches Err(e) ==> dealing_failure(e, value(*secret), n as nat, k as nat, value(*q)),
        r matches Ok(dealt) ==> is_dealt_from(
            dealt.0@,
            dealt.1@,
            value(*secret),
            n as nat,
            k as nat,
            value(*g),
            value(*p),
            q,
            rng_gen,
        ),
{
    if k == 0 || k > n {
        return Err(Error::InvalidThreshold);
    }
    if !big_lt(secret, q) {
        return Err(Error::SecretTooLarge);
    }
    let poly = Polynomial::new(secret, k - 1, q, rng_gen);
    let commitments = generate_commitments(poly.coefficients.as_slice(), g, p);
    let shares = deal_shares(poly.coefficients.as_slice(), n as u64, q);
    proof {
        let coeffs = poly@;
        assert forall|i: int| 0 <= i < k implies #[trigger] coeffs[i] < value(*q) by {
            if i > 0 {
                assert(drawn_from(rng_gen, q, coeffs[i]));
            }
        }
        assert(is_dealing(coeffs, value(*secret), k as nat, value(*q)));
    }
    Ok((shares, commitments))
}

} // verus!

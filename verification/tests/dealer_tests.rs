use num_bigint::BigUint;
use secret_sharing::dealer::{
    deal_shares, generate_polynomial, generate_shares, make_shares, make_shares_with, split,
};
use secret_sharing::error::Error;
use secret_sharing::feldman::{generate_commitments, verify_share};
use secret_sharing::lagrange::interpolate;
use secret_sharing::polynomial::evaluate_polynomial;

fn big(n: u64) -> BigUint {
    BigUint::from(n)
}

#[test]
fn threshold_above_the_number_of_shares_is_refused() {
    assert_eq!(generate_shares(&big(5), 3, 4, &big(23)), Err(Error::InvalidThreshold));
    assert_eq!(
        make_shares(&big(5), 3, 4, &big(2), &big(23), &big(11)),
        Err(Error::InvalidThreshold)
    );
}

#[test]
fn threshold_of_zero_is_refused() {
    assert_eq!(generate_shares(&big(5), 3, 0, &big(23)), Err(Error::InvalidThreshold));
    assert_eq!(
        make_shares(&big(5), 3, 0, &big(2), &big(23), &big(11)),
        Err(Error::InvalidThreshold)
    );
}

#[test]
fn no_shares_at_all_is_refused() {
    assert_eq!(generate_shares(&big(5), 0, 0, &big(23)), Err(Error::InvalidThreshold));
    assert_eq!(generate_shares(&big(5), 0, 1, &big(23)), Err(Error::InvalidThreshold));
    assert_eq!(split(&big(5), 0, 1, &big(2), &big(23), &big(11)), Err(Error::InvalidThreshold));
}

#[test]
fn the_threshold_is_checked_before_the_secret() {
    assert_eq!(generate_shares(&big(500), 3, 4, &big(23)), Err(Error::InvalidThreshold));
}

#[test]
fn a_secret_that_is_not_below_the_modulus_is_refused() {
    assert_eq!(generate_shares(&big(23), 3, 2, &big(23)), Err(Error::SecretTooLarge));
    assert_eq!(generate_shares(&big(24), 3, 2, &big(23)), Err(Error::SecretTooLarge));
    assert_eq!(
        make_shares(&big(11), 3, 2, &big(2), &big(23), &big(11)),
        Err(Error::SecretTooLarge)
    );
    assert_eq!(generate_shares(&big(0), 3, 2, &big(0)), Err(Error::SecretTooLarge));
}

#[test]
fn the_largest_secret_is_one_below_the_modulus() {
    let shares = generate_shares(&big(22), 3, 2, &big(23)).unwrap();
    assert_eq!(shares.len(), 3);
}

#[test]
fn with_the_threshold_one_every_share_is_the_secret() {
    let shares = generate_shares(&big(5), 4, 1, &big(23)).unwrap();
    let expected: Vec<(BigUint, BigUint)> = (1..=4u64).map(|x| (big(x), big(5))).collect();
    assert_eq!(shares, expected);
    let (shares, commitments) = make_shares(&big(5), 4, 1, &big(2), &big(23), &big(11)).unwrap();
    assert_eq!(shares, expected);
    assert_eq!(commitments, vec![big(9)]);
}

#[test]
fn shares_are_at_one_to_n_and_never_at_zero() {
    let shares = generate_shares(&big(5), 7, 3, &big(1613)).unwrap();
    let xs: Vec<BigUint> = shares.iter().map(|s| s.0.clone()).collect();
    assert_eq!(xs, (1..=7u64).map(big).collect::<Vec<BigUint>>());
    for (_, y) in &shares {
        assert!(*y < big(1613));
    }
}

#[test]
fn deal_shares_evaluates_at_one_to_n() {
    let coeffs = vec![big(1234), big(166), big(94)];
    let shares = deal_shares(&coeffs, 6, &big(1613));
    let expected: Vec<(BigUint, BigUint)> = [1494u64, 329, 965, 176, 1188, 775]
        .iter()
        .enumerate()
        .map(|(i, y)| (big(i as u64 + 1), big(*y)))
        .collect();
    assert_eq!(shares, expected);
    assert!(deal_shares(&coeffs, 0, &big(1613)).is_empty());
}

#[test]
fn generated_polynomial_starts_with_the_secret() {
    let prime = big(1613);
    for degree in 0..6u32 {
        let coeffs = generate_polynomial(&big(1234), degree, &prime).unwrap();
        assert_eq!(coeffs.len(), degree as usize + 1);
        assert_eq!(coeffs[0], big(1234));
        for c in &coeffs[1..] {
            assert!(*c > big(0) && *c < prime);
        }
    }
}

#[test]
fn generated_polynomial_fails_where_nothing_can_be_drawn() {
    // no number is in [1, 1)
    assert_eq!(generate_polynomial(&big(0), 1, &big(1)), Err(Error::RandomSourceFailed));
    assert_eq!(generate_polynomial(&big(0), 0, &big(1)), Ok(vec![big(0)]));
}

#[test]
fn commitments_of_a_dealing_fit_its_shares() {
    // with the threshold 2 the polynomial can be read off two shares
    let (p, q, g) = (big(23), big(11), big(2));
    let (shares, commitments) = split(&big(5), 4, 2, &g, &p, &q).unwrap();
    let y1 = &shares[0].1;
    let y2 = &shares[1].1;
    let a1 = (y2 + &q - y1) % &q;
    let coeffs = vec![big(5), a1];
    assert_eq!(commitments, generate_commitments(&coeffs, &g, &p));
    for (x, y) in &shares {
        assert_eq!(*y, evaluate_polynomial(&coeffs, x, &q));
    }
}

#[test]
fn two_dealings_of_one_secret_differ() {
    let q = BigUint::parse_bytes(b"170141183460469231731687303715884105727", 10).unwrap();
    let first = generate_shares(&big(5), 3, 2, &q).unwrap();
    let second = generate_shares(&big(5), 3, 2, &q).unwrap();
    assert_ne!(first, second);
}

#[test]
fn a_fixed_source_gives_a_fixed_dealing() {
    // q = 23, p = 2q + 1 = 47, and 2 has order 23 modulo 47
    let (p, q, g) = (big(47), big(23), big(2));
    let source = |_q: &BigUint| BigUint::from(7u32);
    let (shares, commitments) = make_shares_with(&big(3), 3, 2, &g, &p, &q, source).unwrap();
    // f(x) = 3 + 7x modulo 23
    assert_eq!(shares, vec![(big(1), big(10)), (big(2), big(17)), (big(3), big(1))]);
    // 2^3 = 8 and 2^7 = 128 = 34 (mod 47)
    assert_eq!(commitments, vec![big(8), big(34)]);
    for (x, y) in &shares {
        assert!(verify_share(x, y, &commitments, &g, &p, &q));
    }
    for (i, j) in [(0, 1), (0, 2), (1, 2)] {
        let two = vec![shares[i].clone(), shares[j].clone()];
        assert_eq!(interpolate(&two, &q), Ok(big(3)));
    }
}

#[test]
fn a_source_above_the_modulus_is_reduced() {
    let (p, q, g) = (big(47), big(23), big(2));
    let source = |_q: &BigUint| BigUint::from(30u32);
    let (shares, _) = make_shares_with(&big(3), 2, 2, &g, &p, &q, source).unwrap();
    // f(x) = 3 + 7x modulo 23
    assert_eq!(shares, vec![(big(1), big(10)), (big(2), big(17))]);
}

#[test]
fn a_dealing_from_a_source_fails_only_on_its_arguments() {
    let (p, q, g) = (big(47), big(23), big(2));
    let source = |_q: &BigUint| BigUint::from(7u32);
    assert_eq!(
        make_shares_with(&big(3), 2, 3, &g, &p, &q, source),
        Err(Error::InvalidThreshold)
    );
    assert_eq!(
        make_shares_with(&big(3), 2, 0, &g, &p, &q, source),
        Err(Error::InvalidThreshold)
    );
    assert_eq!(
        make_shares_with(&big(23), 2, 2, &g, &p, &q, source),
        Err(Error::SecretTooLarge)
    );
}

use num_bigint::BigUint;
use secret_sharing::feldman::{generate_commitments, verify_share};

#[test]
fn test_verify_share_simple() {
    let p = BigUint::from(23u32);
    let q = BigUint::from(11u32);
    let g = BigUint::from(2u32);

    // f(x) = 5 + 3x
    let coeffs = vec![BigUint::from(5u32), BigUint::from(3u32)];
    let commitments = generate_commitments(&coeffs, &g, &p);

    // f(1) = 8 (mod 11)
    let x = BigUint::from(1u32);
    let y = BigUint::from(8u32);

    assert!(verify_share(&x, &y, &commitments, &g, &p, &q));
}

#[test]
fn test_verify_share_larger_x() {
    let p = BigUint::from(23u32);
    let q = BigUint::from(11u32);
    let g = BigUint::from(2u32);

    // f(x) = 5 + 3x
    let coeffs = vec![BigUint::from(5u32), BigUint::from(3u32)];
    let commitments = generate_commitments(&coeffs, &g, &p);

    // f(7) = 26 = 4 (mod 11)
    let x = BigUint::from(7u32);
    let y = BigUint::from(4u32);

    assert!(verify_share(&x, &y, &commitments, &g, &p, &q));
}

#[test]
fn test_verify_share_invalid() {
    let p = BigUint::from(23u32);
    let q = BigUint::from(11u32);
    let g = BigUint::from(2u32);

    // f(x) = 5 + 3x
    let coeffs = vec![BigUint::from(5u32), BigUint::from(3u32)];
    let commitments = generate_commitments(&coeffs, &g, &p);

    // y should be 8
    let x = BigUint::from(1u32);
    let y = BigUint::from(7u32);

    assert!(!verify_share(&x, &y, &commitments, &g, &p, &q));
}

fn big(n: u64) -> BigUint {
    BigUint::from(n)
}

#[test]
fn commitments_are_powers_of_the_generator() {
    let coeffs = vec![big(5), big(3)];
    let commitments = generate_commitments(&coeffs, &big(2), &big(23));
    assert_eq!(commitments, vec![big(9), big(8)]);
    assert_eq!(
        secret_sharing::feldman::compute_commitments(&coeffs, &big(2), &big(23)),
        commitments
    );
}

#[test]
fn commitments_to_no_coefficients_are_none() {
    let coeffs: Vec<BigUint> = Vec::new();
    assert!(generate_commitments(&coeffs, &big(2), &big(23)).is_empty());
}

#[test]
fn every_share_of_the_polynomial_verifies() {
    // f(x) = 5 + 3x modulo 11, in the group of order 11 modulo 23
    let commitments = generate_commitments(&[big(5), big(3)], &big(2), &big(23));
    for x in 0..40u64 {
        let y = (5 + 3 * x) % 11;
        assert!(verify_share(&big(x), &big(y), &commitments, &big(2), &big(23), &big(11)));
    }
}

#[test]
fn a_share_raised_by_one_fails() {
    let commitments = generate_commitments(&[big(5), big(3)], &big(2), &big(23));
    for x in 1..12u64 {
        let y = (5 + 3 * x) % 11;
        assert!(!verify_share(&big(x), &big(y + 1), &commitments, &big(2), &big(23), &big(11)));
    }
}

#[test]
fn the_exponent_is_reduced_by_the_order_of_the_group() {
    // f(x) = 1 + x + x^2 + x^3 at x = 10: the powers of x are far above q
    let coeffs = vec![big(1), big(1), big(1), big(1)];
    let commitments = generate_commitments(&coeffs, &big(2), &big(23));
    let y = (1 + 10 + 100 + 1000) % 11;
    assert!(verify_share(&big(10), &big(y), &commitments, &big(2), &big(23), &big(11)));
}

#[test]
fn verify_all_answers_in_the_order_of_the_shares() {
    let commitments = generate_commitments(&[big(5), big(3)], &big(2), &big(23));
    let shares = vec![(big(1), big(8)), (big(2), big(1)), (big(3), big(3)), (big(4), big(6))];
    assert_eq!(
        secret_sharing::feldman::verify_all(&shares, &commitments, &big(2), &big(23), &big(11)),
        vec![true, false, true, true]
    );
}

#[test]
fn verify_secret_checks_the_first_commitment() {
    let commitments = generate_commitments(&[big(5), big(3)], &big(2), &big(23));
    assert!(secret_sharing::feldman::verify_secret(&big(5), &commitments[0], &big(2), &big(23)));
    assert!(!secret_sharing::feldman::verify_secret(&big(6), &commitments[0], &big(2), &big(23)));
    assert!(!secret_sharing::feldman::verify_secret(&big(5), &commitments[1], &big(2), &big(23)));
}

#[test]
fn shares_of_a_dealing_verify() {
    let (p, q, g) = (big(23), big(11), big(2));
    for _ in 0..20 {
        let (shares, commitments) =
            secret_sharing::dealer::make_shares(&big(5), 6, 3, &g, &p, &q).unwrap();
        assert_eq!(commitments.len(), 3);
        assert_eq!(commitments[0], big(9));
        for (x, y) in &shares {
            assert!(verify_share(x, y, &commitments, &g, &p, &q));
            let tampered = y + 1u32;
            assert!(!verify_share(x, &tampered, &commitments, &g, &p, &q));
        }
    }
}

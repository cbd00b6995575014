use num_bigint::BigUint;
use secret_sharing::codec::encode;
use secret_sharing::dealer::{deal_shares, generate_shares};
use secret_sharing::error::Error;
use secret_sharing::lagrange::{compute_lj_zero, interpolate, reconstruct_secret};

fn big(n: u64) -> BigUint {
    BigUint::from(n)
}

fn shares(points: &[(u64, u64)]) -> Vec<(BigUint, BigUint)> {
    points.iter().map(|(x, y)| (big(*x), big(*y))).collect()
}

#[test]
fn basis_values_at_zero() {
    // x = 1, 2 modulo 23: L_0(0) = 2 / (2 - 1) = 2, L_1(0) = 1 / (1 - 2) = -1
    let s = shares(&[(1, 10), (2, 17)]);
    assert_eq!(compute_lj_zero(0, &s, &big(23)), big(2));
    assert_eq!(compute_lj_zero(1, &s, &big(23)), big(22));
}

#[test]
fn basis_value_of_a_single_share_is_one() {
    let s = shares(&[(5, 10)]);
    assert_eq!(compute_lj_zero(0, &s, &big(23)), big(1));
}

#[test]
fn two_of_three_shares_of_hi_reconstruct_it() {
    // the secret "hi" as a field element modulo 23, and f(x) = secret + 7x
    let secret = encode(b"hi") % big(23);
    assert_eq!(secret, big(3));
    let all = deal_shares(&[secret.clone(), big(7)], 3, &big(23));
    assert_eq!(all, shares(&[(1, 10), (2, 17), (3, 1)]));
    for (i, j) in [(0, 1), (0, 2), (1, 2), (1, 0), (2, 0), (2, 1)] {
        let pair = vec![all[i].clone(), all[j].clone()];
        assert_eq!(interpolate(&pair, &big(23)), Ok(secret.clone()));
        assert_eq!(reconstruct_secret(&pair, &big(23)), secret);
    }
    assert_eq!(interpolate(&all, &big(23)), Ok(secret.clone()));
    // one share alone gives its own y, which is not the secret
    for share in &all {
        let alone = vec![share.clone()];
        assert_eq!(interpolate(&alone, &big(23)), Ok(share.1.clone()));
        assert_ne!(interpolate(&alone, &big(23)), Ok(secret.clone()));
        assert_ne!(reconstruct_secret(&alone, &big(23)), secret);
    }
}

#[test]
fn hi_itself_is_too_large_for_the_field_of_23() {
    assert_eq!(generate_shares(&encode(b"hi"), 3, 2, &big(23)), Err(Error::SecretTooLarge));
}

#[test]
fn any_three_of_six_shares_reconstruct() {
    // f(x) = 1234 + 166x + 94x^2 modulo 1613
    let all = shares(&[(1, 1494), (2, 329), (3, 965), (4, 176), (5, 1188), (6, 775)]);
    let p = big(1613);
    for a in 0..6 {
        for b in 0..6 {
            for c in 0..6 {
                if a != b && b != c && a != c {
                    let subset = vec![all[a].clone(), all[b].clone(), all[c].clone()];
                    assert_eq!(interpolate(&subset, &p), Ok(big(1234)));
                    assert_eq!(reconstruct_secret(&subset, &p), big(1234));
                }
            }
        }
    }
    assert_eq!(interpolate(&all, &p), Ok(big(1234)));
    assert_eq!(interpolate(&all[1..5], &p), Ok(big(1234)));
}

#[test]
fn fewer_shares_than_the_threshold_give_another_number() {
    let p = big(1613);
    let two = shares(&[(1, 1494), (2, 329)]);
    // 1494 * 2 + 329 * (-1) = 2659 = 1046 (mod 1613)
    assert_eq!(interpolate(&two, &p), Ok(big(1046)));
    assert_eq!(reconstruct_secret(&two, &p), big(1046));
}

#[test]
fn one_share_fits_every_secret() {
    // with the threshold 2, the share (1, 10) is the share of every secret s:
    // f(x) = s + (10 - s) x
    for s in 0..23u64 {
        let a1 = (10 + 23 - s) % 23;
        let dealt = deal_shares(&[big(s), big(a1)], 1, &big(23));
        assert_eq!(dealt, shares(&[(1, 10)]));
    }
    // and with the other coefficient fixed, the share moves through the whole field
    let mut seen = vec![false; 23];
    for s in 0..23u64 {
        let dealt = deal_shares(&[big(s), big(7)], 1, &big(23));
        let y = interpolate(&dealt, &big(23)).unwrap();
        assert_eq!(y, big((s + 7) % 23));
        seen[((s + 7) % 23) as usize] = true;
    }
    assert!(seen.iter().all(|hit| *hit));
}

#[test]
fn a_changed_share_changes_the_result_without_an_error() {
    let p = big(1613);
    let good = shares(&[(2, 329), (4, 176), (5, 1188)]);
    assert_eq!(interpolate(&good, &p), Ok(big(1234)));
    for changed in 0..3 {
        for delta in 1..20u64 {
            let mut bad = good.clone();
            bad[changed].1 = (&bad[changed].1 + delta) % &p;
            let result = interpolate(&bad, &p).unwrap();
            assert_ne!(result, big(1234));
            assert_eq!(reconstruct_secret(&bad, &p), result);
        }
    }
}

#[test]
fn the_same_x_twice_has_no_inverse() {
    let s = shares(&[(1, 10), (1, 17)]);
    assert_eq!(interpolate(&s, &big(23)), Err(Error::NonInvertibleDenominator));
    // the same x modulo the prime
    let s = shares(&[(1, 10), (24, 17)]);
    assert_eq!(interpolate(&s, &big(23)), Err(Error::NonInvertibleDenominator));
}

#[test]
fn a_modulus_that_is_not_prime_can_have_no_inverse() {
    // 3 - 1 = 2 shares a divisor with 10
    let s = shares(&[(1, 4), (3, 8)]);
    assert_eq!(interpolate(&s, &big(10)), Err(Error::NonInvertibleDenominator));
    // 2 - 1 = 1 has an inverse modulo 10
    let s = shares(&[(1, 4), (2, 8)]);
    assert_eq!(interpolate(&s, &big(10)), Ok(big(0)));
}

#[test]
fn no_shares_give_zero() {
    let s: Vec<(BigUint, BigUint)> = Vec::new();
    assert_eq!(interpolate(&s, &big(23)), Ok(big(0)));
    assert_eq!(reconstruct_secret(&s, &big(23)), big(0));
}

#[test]
fn shares_in_any_order_and_with_large_x() {
    // f(x) = 3 + 7x modulo 23 at x = 45 = 22 and x = 100 = 8
    let s = shares(&[(100, (3 + 7 * 8) % 23), (45, (3 + 7 * 22) % 23)]);
    assert_eq!(interpolate(&s, &big(23)), Ok(big(3)));
    assert_eq!(reconstruct_secret(&s, &big(23)), big(3));
}

#[test]
fn random_dealings_reconstruct_from_every_subset_of_threshold_size() {
    let q = BigUint::parse_bytes(b"170141183460469231731687303715884105727", 10).unwrap();
    assert!(encode(b"seventeen bytes!!") >= q);
    let secret = encode(b"a short secret");
    for _ in 0..5 {
        let all = generate_shares(&secret, 5, 3, &q).unwrap();
        assert_eq!(all.len(), 5);
        for a in 0..5 {
            for b in (a + 1)..5 {
                for c in (b + 1)..5 {
                    let subset = vec![all[c].clone(), all[a].clone(), all[b].clone()];
                    assert_eq!(interpolate(&subset, &q), Ok(secret.clone()));
                    assert_eq!(reconstruct_secret(&subset, &q), secret);
                }
            }
        }
    }
}

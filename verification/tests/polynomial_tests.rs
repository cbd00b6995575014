use num_bigint::BigUint;
use secret_sharing::polynomial::{evaluate, evaluate_polynomial, Polynomial};
use std::cell::Cell;

fn big(n: u64) -> BigUint {
    BigUint::from(n)
}

fn bigs(ns: &[u64]) -> Vec<BigUint> {
    ns.iter().map(|n| BigUint::from(*n)).collect()
}

#[test]
fn evaluate_polynomial_by_horner() {
    // f(x) = 5 + 3x, modulo 11
    let coeffs = bigs(&[5, 3]);
    assert_eq!(evaluate_polynomial(&coeffs, &big(1), &big(11)), big(8));
    assert_eq!(evaluate_polynomial(&coeffs, &big(7), &big(11)), big(4));
    assert_eq!(evaluate_polynomial(&coeffs, &big(0), &big(11)), big(5));
}

#[test]
fn evaluate_by_powers() {
    // f(x) = 1234 + 166x + 94x^2, modulo 1613
    let coeffs = bigs(&[1234, 166, 94]);
    let expected = [1494u64, 329, 965, 176, 1188, 775];
    for (i, y) in expected.iter().enumerate() {
        assert_eq!(evaluate(&coeffs, &big(i as u64 + 1), &big(1613)), big(*y));
    }
}

#[test]
fn both_orders_of_evaluation_agree() {
    let coeffs = bigs(&[17, 0, 5, 1000, 3, 999_999]);
    let m = big(1_000_003);
    for x in 0..40u64 {
        assert_eq!(
            evaluate(&coeffs, &big(x), &m),
            evaluate_polynomial(&coeffs, &big(x), &m)
        );
    }
}

#[test]
fn evaluation_of_no_coefficients_is_zero() {
    let coeffs: Vec<BigUint> = Vec::new();
    assert_eq!(evaluate(&coeffs, &big(5), &big(11)), big(0));
    assert_eq!(evaluate_polynomial(&coeffs, &big(5), &big(11)), big(0));
}

#[test]
fn evaluation_reduces_coefficients_above_the_modulus() {
    // 30 + 40x at x = 2, modulo 7: 110 = 5
    let coeffs = bigs(&[30, 40]);
    assert_eq!(evaluate(&coeffs, &big(2), &big(7)), big(5));
    assert_eq!(evaluate_polynomial(&coeffs, &big(2), &big(7)), big(5));
}

#[test]
fn evaluation_modulo_one_is_zero() {
    let coeffs = bigs(&[5, 3]);
    assert_eq!(evaluate(&coeffs, &big(2), &big(1)), big(0));
    assert_eq!(evaluate_polynomial(&coeffs, &big(2), &big(1)), big(0));
}

#[test]
fn new_polynomial_takes_its_coefficients_from_the_source() {
    // a source with a fixed sequence: 100, 101, 102, ...
    let next = Cell::new(100u64);
    let source = |_limit: &BigUint| {
        let n = next.get();
        next.set(n + 1);
        BigUint::from(n)
    };
    let poly = Polynomial::new(&big(7), 3, &big(23), source);
    // 100 = 8, 101 = 9, 102 = 10 (mod 23)
    assert_eq!(poly.coefficients, bigs(&[7, 8, 9, 10]));
}

#[test]
fn new_polynomial_of_degree_zero_is_the_secret() {
    let poly = Polynomial::new(&big(7), 0, &big(23), |_limit: &BigUint| BigUint::from(1u32));
    assert_eq!(poly.coefficients, bigs(&[7]));
    assert_eq!(poly.evaluate(&big(5), &big(23)), big(7));
}

#[test]
fn polynomial_evaluate_is_the_value_at_x() {
    let poly = Polynomial { coefficients: bigs(&[3, 7]) };
    assert_eq!(poly.evaluate(&big(1), &big(23)), big(10));
    assert_eq!(poly.evaluate(&big(2), &big(23)), big(17));
    assert_eq!(poly.evaluate(&big(3), &big(23)), big(1));
    // the value at zero is the secret
    assert_eq!(poly.evaluate(&big(0), &big(23)), big(3));
}

use num_bigint::{BigInt, BigUint};
use secret_sharing::field::{
    add_mod, extended_gcd, inverse_mod, mod_inv, mod_pow, mul_mod, sub_mod,
};

fn big(n: u64) -> BigUint {
    BigUint::from(n)
}

#[test]
fn add_mod_wraps_at_the_modulus() {
    assert_eq!(add_mod(&big(20), &big(7), &big(23)), big(4));
    assert_eq!(add_mod(&big(3), &big(4), &big(23)), big(7));
    assert_eq!(add_mod(&big(100), &big(200), &big(7)), big(6));
}

#[test]
fn sub_mod_of_a_smaller_from_a_larger() {
    assert_eq!(sub_mod(&big(9), &big(4), &big(23)), big(5));
}

#[test]
fn sub_mod_stays_non_negative_when_a_is_below_b() {
    assert_eq!(sub_mod(&big(4), &big(9), &big(23)), big(18));
    assert_eq!(sub_mod(&big(0), &big(1), &big(23)), big(22));
}

#[test]
fn sub_mod_takes_operands_above_the_modulus() {
    // 50 - 100 = -50 = 19 (mod 23)
    assert_eq!(sub_mod(&big(50), &big(100), &big(23)), big(19));
}

#[test]
fn mul_mod_reduces_the_product() {
    assert_eq!(mul_mod(&big(7), &big(8), &big(23)), big(10));
    assert_eq!(mul_mod(&big(0), &big(8), &big(23)), big(0));
}

#[test]
fn mod_pow_small_values() {
    assert_eq!(mod_pow(&big(7), &big(13), &big(23)), big(20));
    assert_eq!(mod_pow(&big(2), &big(11), &big(23)), big(1));
    assert_eq!(mod_pow(&big(5), &big(0), &big(23)), big(1));
    assert_eq!(mod_pow(&big(5), &big(0), &big(1)), big(0));
}

#[test]
fn mod_pow_with_an_even_modulus() {
    assert_eq!(mod_pow(&big(3), &big(4), &big(10)), big(1));
}

#[test]
fn mod_inv_is_the_inverse_modulo_a_prime() {
    let inv = mod_inv(&big(3), &big(23));
    assert_eq!(inv, big(8));
    assert_eq!(mul_mod(&big(3), &inv, &big(23)), big(1));
}

#[test]
fn mod_inv_agrees_with_inverse_mod_on_a_prime() {
    let p = big(1613);
    for a in 1..50u64 {
        assert_eq!(Some(mod_inv(&big(a), &p)), inverse_mod(&big(a), &p));
    }
}

#[test]
fn inverse_mod_finds_the_inverse() {
    assert_eq!(inverse_mod(&big(3), &big(23)), Some(big(8)));
    assert_eq!(inverse_mod(&big(4), &big(9)), Some(big(7)));
    assert_eq!(inverse_mod(&big(1), &big(23)), Some(big(1)));
}

#[test]
fn inverse_mod_reduces_its_argument() {
    assert_eq!(inverse_mod(&big(26), &big(23)), Some(big(8)));
}

#[test]
fn inverse_mod_signals_a_shared_divisor() {
    assert_eq!(inverse_mod(&big(6), &big(9)), None);
    assert_eq!(inverse_mod(&big(0), &big(23)), None);
    assert_eq!(inverse_mod(&big(23), &big(23)), None);
}

#[test]
fn inverse_mod_modulo_one_is_zero() {
    assert_eq!(inverse_mod(&big(5), &big(1)), Some(big(0)));
}

#[test]
fn extended_gcd_gives_bezout_coefficients() {
    let (g, x, y) = extended_gcd(BigInt::from(240), BigInt::from(46));
    assert_eq!(g, BigInt::from(2));
    assert_eq!(x, BigInt::from(-9));
    assert_eq!(y, BigInt::from(47));
    assert_eq!(BigInt::from(240) * &x + BigInt::from(46) * &y, g);
}

#[test]
fn extended_gcd_with_a_zero_argument() {
    let (g, x, y) = extended_gcd(BigInt::from(7), BigInt::from(0));
    assert_eq!((g, x, y), (BigInt::from(7), BigInt::from(1), BigInt::from(0)));
    let (g, x, y) = extended_gcd(BigInt::from(0), BigInt::from(7));
    assert_eq!(g, BigInt::from(7));
    assert_eq!(BigInt::from(0) * &x + BigInt::from(7) * &y, BigInt::from(7));
}

#[test]
fn extended_gcd_of_coprime_numbers_is_one() {
    let (g, x, y) = extended_gcd(BigInt::from(17), BigInt::from(23));
    assert_eq!(g, BigInt::from(1));
    assert_eq!(BigInt::from(17) * &x + BigInt::from(23) * &y, BigInt::from(1));
}

#[test]
fn extended_gcd_with_negative_arguments_keeps_the_identity() {
    for (a, b) in [(-240i64, 46i64), (240, -46), (-240, -46), (-7, 0)] {
        let (g, x, y) = extended_gcd(BigInt::from(a), BigInt::from(b));
        assert_eq!(BigInt::from(a) * &x + BigInt::from(b) * &y, g);
        let magnitude = if a == -7 { 7 } else { 2 };
        assert!(g == BigInt::from(magnitude) || g == BigInt::from(-magnitude));
        if b > 0 {
            assert!(g > BigInt::from(0));
        }
        if b < 0 {
            assert!(g < BigInt::from(0));
        }
    }
}

#[test]
fn arithmetic_on_numbers_beyond_128_bits() {
    // 2^200 mod (2^127 - 1) = 2^73
    let q = BigUint::parse_bytes(b"170141183460469231731687303715884105727", 10).unwrap();
    let two = big(2);
    assert_eq!(mod_pow(&two, &big(200), &q), BigUint::from(1u128 << 73));
    let a = BigUint::from(1u128 << 100);
    // 2^100 * 2^100 = 2^200 = 2^73
    assert_eq!(mul_mod(&a, &a, &q), BigUint::from(1u128 << 73));
    let inv = inverse_mod(&a, &q).unwrap();
    assert_eq!(mul_mod(&a, &inv, &q), big(1));
    assert_eq!(mod_inv(&a, &q), inv);
}

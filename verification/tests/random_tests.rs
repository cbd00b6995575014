use num_bigint::BigUint;
use secret_sharing::random::{candidate_below, random_biguint_below};

fn big(n: u64) -> BigUint {
    BigUint::from(n)
}

#[test]
fn candidate_is_the_bytes_without_the_bits_above_the_limit() {
    // 300 has 9 bits: 0x0105 = 261 stays, and 0x0305 loses its tenth bit
    assert_eq!(candidate_below(&[0x01, 0x05], &big(300)), Some(big(261)));
    assert_eq!(candidate_below(&[0x03, 0x05], &big(300)), Some(big(261)));
    assert_eq!(candidate_below(&[0x00, 0x01], &big(300)), Some(big(1)));
    assert_eq!(candidate_below(&[0x01, 0x2b], &big(300)), Some(big(299)));
}

#[test]
fn candidate_at_or_above_the_limit_is_turned_down() {
    // 0xffff = 511 (mod 512)
    assert_eq!(candidate_below(&[0xff, 0xff], &big(300)), None);
    assert_eq!(candidate_below(&[0x01, 0x2c], &big(300)), None);
}

#[test]
fn candidate_zero_is_turned_down() {
    assert_eq!(candidate_below(&[0x00, 0x00], &big(300)), None);
    assert_eq!(candidate_below(&[0x02, 0x00], &big(300)), None);
    assert_eq!(candidate_below(&[], &big(300)), None);
}

#[test]
fn no_candidate_is_below_a_limit_under_two() {
    for byte in 0..=255u8 {
        assert_eq!(candidate_below(&[byte], &big(0)), None);
        assert_eq!(candidate_below(&[byte], &big(1)), None);
    }
}

#[test]
fn random_number_is_in_range() {
    for limit in [2u64, 3, 17, 255, 256, 257, 65_536, 1_000_003] {
        for _ in 0..50 {
            let r = random_biguint_below(&big(limit)).unwrap();
            assert!(r > big(0));
            assert!(r < big(limit));
        }
    }
}

#[test]
fn random_number_below_two_is_one() {
    assert_eq!(random_biguint_below(&big(2)), Some(big(1)));
}

#[test]
fn nothing_is_drawn_below_a_limit_under_two() {
    assert_eq!(random_biguint_below(&big(0)), None);
    assert_eq!(random_biguint_below(&big(1)), None);
}

#[test]
fn random_numbers_below_a_large_limit_differ() {
    let q = BigUint::parse_bytes(b"170141183460469231731687303715884105727", 10).unwrap();
    let a = random_biguint_below(&q).unwrap();
    let b = random_biguint_below(&q).unwrap();
    assert!(a < q && b < q);
    assert_ne!(a, b);
}

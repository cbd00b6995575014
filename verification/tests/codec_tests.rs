use num_bigint::BigUint;
use secret_sharing::codec::{biguint_to_string, decode, encode, string_to_biguint};
use secret_sharing::error::Error;

#[test]
fn encode_reads_bytes_in_base_256() {
    assert_eq!(encode(b"A"), BigUint::from(65u32));
    assert_eq!(encode(b"hi"), BigUint::from(26729u32));
    assert_eq!(encode(&[1, 0]), BigUint::from(256u32));
    assert_eq!(
        encode(b"Hello world!"),
        BigUint::parse_bytes(b"22405534230753963835153736737", 10).unwrap()
    );
}

#[test]
fn encode_of_nothing_is_zero() {
    assert_eq!(encode(&[]), BigUint::from(0u32));
}

#[test]
fn decode_gives_the_shortest_bytes() {
    assert_eq!(decode(&BigUint::from(26729u32)), b"hi".to_vec());
    assert_eq!(decode(&BigUint::from(256u32)), vec![1u8, 0]);
    assert_eq!(decode(&BigUint::from(255u32)), vec![255u8]);
    assert_eq!(decode(&BigUint::from(65536u32)), vec![1u8, 0, 0]);
}

#[test]
fn decode_of_zero_is_empty() {
    assert_eq!(decode(&BigUint::from(0u32)), Vec::<u8>::new());
}

#[test]
fn round_trip_keeps_bytes_without_a_leading_zero() {
    let samples: [&[u8]; 6] = [
        b"",
        b"a",
        b"hi",
        b"a longer secret, with punctuation!",
        &[1, 0, 0, 0, 0, 0, 0, 0, 0, 0, 0, 0, 0, 0, 0, 0, 0],
        &[255, 254, 0, 1, 128],
    ];
    for bytes in samples {
        assert_eq!(decode(&encode(bytes)), bytes.to_vec());
    }
}

#[test]
fn round_trip_loses_leading_zero_bytes() {
    assert_eq!(decode(&encode(&[0x00, 0x41])), vec![0x41u8]);
    assert_eq!(decode(&encode(&[0, 0, 0, 7, 0])), vec![7u8, 0]);
    assert_eq!(decode(&encode(&[0, 0])), Vec::<u8>::new());
}

#[test]
fn string_to_biguint_reads_the_bytes_of_the_text() {
    assert_eq!(string_to_biguint("hi"), BigUint::from(26729u32));
    assert_eq!(string_to_biguint(""), BigUint::from(0u32));
    assert_eq!(string_to_biguint("Hello world!"), encode(b"Hello world!"));
}

#[test]
fn string_to_biguint_reads_utf8_bytes_of_other_scripts() {
    // U+00E9 is 0xC3 0xA9 in UTF-8
    assert_eq!(string_to_biguint("\u{e9}"), BigUint::from(0xc3a9u32));
}

#[test]
fn biguint_to_string_gives_the_text() {
    assert_eq!(biguint_to_string(&BigUint::from(26729u32)), Ok("hi".to_string()));
    assert_eq!(biguint_to_string(&BigUint::from(0u32)), Ok(String::new()));
    assert_eq!(biguint_to_string(&BigUint::from(0xc3a9u32)), Ok("\u{e9}".to_string()));
}

#[test]
fn biguint_to_string_signals_bytes_that_are_no_text() {
    assert_eq!(biguint_to_string(&BigUint::from(0xffu32)), Err(Error::InvalidUtf8Secret));
    assert_eq!(biguint_to_string(&BigUint::from(0xc3u32)), Err(Error::InvalidUtf8Secret));
}

#[test]
fn text_round_trip() {
    for text in ["a", "hi", "correct horse battery staple", "\u{4e16}\u{754c}"] {
        assert_eq!(biguint_to_string(&string_to_biguint(text)), Ok(text.to_string()));
    }
}

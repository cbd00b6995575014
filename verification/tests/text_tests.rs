use num_bigint::BigUint;
use secret_sharing::error::Error;
use secret_sharing::text::{
    parse_commitments, parse_number, parse_share, parse_shares, split_bytes, trim_bytes,
};

fn big(n: u64) -> BigUint {
    BigUint::from(n)
}

#[test]
fn trim_takes_white_space_from_both_ends() {
    assert_eq!(trim_bytes(b"  12 "), b"12".to_vec());
    assert_eq!(trim_bytes(b"\t\n1 2\r\n"), b"1 2".to_vec());
    assert_eq!(trim_bytes(b"12"), b"12".to_vec());
    assert_eq!(trim_bytes(b"   "), Vec::<u8>::new());
    assert_eq!(trim_bytes(b""), Vec::<u8>::new());
}

#[test]
fn split_gives_one_field_more_than_separators() {
    assert_eq!(split_bytes(b"1,2;3,4", b';'), vec![b"1,2".to_vec(), b"3,4".to_vec()]);
    assert_eq!(split_bytes(b"abc", b';'), vec![b"abc".to_vec()]);
    assert_eq!(split_bytes(b"", b';'), vec![Vec::<u8>::new()]);
    assert_eq!(
        split_bytes(b";a;;", b';'),
        vec![Vec::<u8>::new(), b"a".to_vec(), Vec::<u8>::new(), Vec::<u8>::new()]
    );
}

#[test]
fn parse_number_reads_decimal() {
    assert_eq!(parse_number(b"0"), Some(big(0)));
    assert_eq!(parse_number(b"1234"), Some(big(1234)));
    assert_eq!(parse_number(b" 42\n"), Some(big(42)));
    assert_eq!(parse_number(b"007"), Some(big(7)));
    assert_eq!(
        parse_number(b"340282366920938463463374607431768211455"),
        Some(BigUint::from(u128::MAX))
    );
}

#[test]
fn parse_number_takes_a_plus_and_underscores() {
    assert_eq!(parse_number(b"+5"), Some(big(5)));
    assert_eq!(parse_number(b"1_000"), Some(big(1000)));
    assert_eq!(parse_number(b"1__0_"), Some(big(10)));
}

#[test]
fn parse_number_turns_down_what_is_no_numeral() {
    for text in [
        &b""[..],
        b" ",
        b"+",
        b"++5",
        b"-5",
        b"_5",
        b"+_5",
        b"12a",
        b"0x10",
        b"1 2",
        b"1.5",
        b"\xff",
    ] {
        assert_eq!(parse_number(text), None);
    }
}

#[test]
fn parse_share_reads_two_numbers() {
    assert_eq!(parse_share(b"1,10"), Ok((big(1), big(10))));
    assert_eq!(parse_share(b" 2 , 17 "), Ok((big(2), big(17))));
}

#[test]
fn parse_share_turns_down_other_text() {
    for text in [&b""[..], b"1", b"1,", b",1", b"1,2,3", b"a,b", b"1;2", b"1, 2 3"] {
        assert_eq!(parse_share(text), Err(Error::MalformedShare));
    }
}

#[test]
fn parse_shares_reads_a_list() {
    assert_eq!(
        parse_shares(b"1,10;2,17; 3,1 "),
        Ok(vec![(big(1), big(10)), (big(2), big(17)), (big(3), big(1))])
    );
    assert_eq!(parse_shares(b"5,6"), Ok(vec![(big(5), big(6))]));
}

#[test]
fn parse_shares_turns_down_a_list_with_a_bad_share() {
    for text in [&b""[..], b"1,10;", b";1,10", b"1,10;;2,17", b"1,10;2", b"1,10,2,17"] {
        assert_eq!(parse_shares(text), Err(Error::MalformedShare));
    }
}

#[test]
fn parse_commitments_reads_a_list() {
    assert_eq!(parse_commitments(b"9,8"), Ok(vec![big(9), big(8)]));
    assert_eq!(parse_commitments(b" 9 ,\t8 , 7"), Ok(vec![big(9), big(8), big(7)]));
    assert_eq!(parse_commitments(b"9"), Ok(vec![big(9)]));
}

#[test]
fn parse_commitments_turns_down_a_list_with_a_bad_number() {
    for text in [&b""[..], b"9,", b",9", b"9,,8", b"9;8", b"nine"] {
        assert_eq!(parse_commitments(text), Err(Error::MalformedCommitment));
    }
}

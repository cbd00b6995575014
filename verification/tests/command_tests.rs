use num_bigint::BigUint;
use secret_sharing::cli::{Args, Command, Commands};
use secret_sharing::commands::plain::PlainOutcome;
use secret_sharing::commands::{
    execute, plain, reconstruct, split, verify_secret, verify_share, Outcome,
};
use secret_sharing::error::Error;
use secret_sharing::feldman::verify_share_verbose;
use secret_sharing::field::mod_pow;
use secret_sharing::params::{get_fixed_params, FieldParameters};

fn big(n: u64) -> BigUint {
    BigUint::from(n)
}

fn small() -> FieldParameters {
    FieldParameters { p: big(23), q: big(11), g: big(2) }
}

fn shares_text(shares: &[(BigUint, BigUint)]) -> String {
    let parts: Vec<String> = shares.iter().map(|(x, y)| format!("{},{}", x, y)).collect();
    parts.join(";")
}

fn numbers_text(numbers: &[BigUint]) -> String {
    let parts: Vec<String> = numbers.iter().map(|c| format!("{}", c)).collect();
    parts.join(",")
}

#[test]
fn fixed_parameters() {
    let (p, q, g) = get_fixed_params();
    assert_eq!(q, BigUint::parse_bytes(b"170141183460469171114957017901932292919", 10).unwrap());
    assert_eq!(p, BigUint::parse_bytes(b"340282366920938342229914035803864585839", 10).unwrap());
    assert_eq!(g, big(2));
    assert_eq!(p, &q * 2u32 + 1u32);
    assert_eq!(q.bits(), 127);
    assert_eq!(p.bits(), 128);
    // every call gives the same numbers
    assert_eq!(get_fixed_params(), (p, q, g));
}

#[test]
fn fixed_generator_has_the_order_of_the_group() {
    let (p, q, g) = get_fixed_params();
    assert!(g > big(1) && g < p);
    assert_eq!(mod_pow(&g, &q, &p), big(1));
    assert_ne!(mod_pow(&g, &big(1), &p), big(1));
    assert_ne!(mod_pow(&g, &big(2), &p), big(1));
}

#[test]
fn fixed_moduli_pass_a_primality_test() {
    // Miller-Rabin to a few bases; both numbers are 3 modulo 4, so n - 1 = 2 * odd
    let (p, q, _) = get_fixed_params();
    for n in [p, q] {
        let odd = (&n - 1u32) / 2u32;
        let minus_one = &n - 1u32;
        for base in [2u64, 3, 5, 7, 11, 13, 17, 19, 23, 29, 31, 37] {
            let x = mod_pow(&big(base), &odd, &n);
            assert!(x == big(1) || x == minus_one);
        }
    }
}

#[test]
fn shares_of_a_split_pass_verification_on_the_fixed_parameters() {
    for secret in ["hi", "a", "fifteen bytes!!"] {
        let dealt = match execute(Command::Split { secret: secret.to_string(), n: 5, k: 3 }) {
            Ok(Outcome::Split(d)) => d,
            _ => panic!("no dealing"),
        };
        let commitments = numbers_text(&dealt.commitments);
        let r = execute(Command::VerifyShare {
            share: shares_text(&dealt.shares),
            commitments: commitments.clone(),
            verbose: true,
        });
        match r {
            Ok(Outcome::SharesVerified(checked)) => {
                assert_eq!(checked.valid, vec![true; 5]);
                assert_eq!(checked.checks.len(), 5);
                for check in &checked.checks {
                    assert_eq!(check.left_side, check.right_side);
                    assert_eq!(check.steps.len(), 3);
                }
            }
            _ => panic!("no verification"),
        }
        // each share with its y raised by one fails
        let tampered: Vec<(BigUint, BigUint)> =
            dealt.shares.iter().map(|(x, y)| (x.clone(), y + 1u32)).collect();
        let r = execute(Command::VerifyShare {
            share: shares_text(&tampered),
            commitments,
            verbose: false,
        });
        match r {
            Ok(Outcome::SharesVerified(checked)) => assert_eq!(checked.valid, vec![false; 5]),
            _ => panic!("no verification"),
        }
    }
}

#[test]
fn split_then_reconstruct_gives_the_secret_back() {
    let dealt = match execute(Command::Split { secret: "hi".to_string(), n: 3, k: 2 }) {
        Ok(Outcome::Split(d)) => d,
        _ => panic!("no dealing"),
    };
    assert_eq!(dealt.shares.len(), 3);
    assert_eq!(dealt.commitments.len(), 2);
    for (i, j) in [(0, 1), (0, 2), (1, 2)] {
        let two = vec![dealt.shares[i].clone(), dealt.shares[j].clone()];
        match execute(Command::Reconstruct { shares: shares_text(&two) }) {
            Ok(Outcome::Reconstructed(rec)) => {
                assert_eq!(rec.secret, big(26729));
                assert_eq!(rec.text, Ok("hi".to_string()));
            }
            _ => panic!("no secret"),
        }
    }
}

#[test]
fn args_carry_the_command() {
    let args = Args { cmd: Command::Reconstruct { shares: "1,5".to_string() } };
    match execute(args.cmd) {
        Ok(Outcome::Reconstructed(rec)) => assert_eq!(rec.secret, big(5)),
        _ => panic!("no secret"),
    }
}

#[test]
fn split_refuses_a_bad_threshold() {
    for (n, k) in [(3usize, 4usize), (3, 0), (0, 0), (0, 1)] {
        let r = execute(Command::Split { secret: "hi".to_string(), n, k });
        assert!(matches!(r, Err(Error::InvalidThreshold)));
    }
}

#[test]
fn split_refuses_a_secret_that_does_not_fit() {
    // seventeen bytes are more than the 127 bits of q
    let r = execute(Command::Split { secret: "seventeen bytes!!".to_string(), n: 3, k: 2 });
    assert!(matches!(r, Err(Error::SecretTooLarge)));
    let r = split::execute("hi".to_string(), 3, 2, &small());
    assert!(matches!(r, Err(Error::SecretTooLarge)));
}

#[test]
fn split_with_small_parameters() {
    // the byte 5 is the number 5
    let dealt = split::execute("\u{5}".to_string(), 4, 2, &small()).unwrap_or_else(|_| panic!());
    assert_eq!(dealt.commitments[0], big(9));
    let text = shares_text(&dealt.shares);
    let checked = verify_share::execute(text, numbers_text(&dealt.commitments), false, &small())
        .unwrap_or_else(|_| panic!());
    assert_eq!(checked.valid, vec![true, true, true, true]);
    assert!(checked.checks.is_empty());
}

#[test]
fn verify_secret_against_the_first_commitment() {
    // 2^5 = 9 (mod 23)
    assert_eq!(
        verify_secret::execute("\u{5}".to_string(), "9,8".to_string(), &small()),
        Ok(true)
    );
    assert_eq!(
        verify_secret::execute("\u{6}".to_string(), "9,8".to_string(), &small()),
        Ok(false)
    );
    assert_eq!(
        verify_secret::execute("\u{5}".to_string(), "8,9".to_string(), &small()),
        Ok(false)
    );
}

#[test]
fn verify_secret_on_the_fixed_parameters() {
    let dealt = match execute(Command::Split { secret: "hi".to_string(), n: 3, k: 2 }) {
        Ok(Outcome::Split(d)) => d,
        _ => panic!("no dealing"),
    };
    let commitments = numbers_text(&dealt.commitments);
    let r = execute(Command::VerifySecret {
        secret: "hi".to_string(),
        commitments: commitments.clone(),
    });
    assert!(matches!(r, Ok(Outcome::SecretVerified(true))));
    let r = execute(Command::VerifySecret { secret: "ho".to_string(), commitments });
    assert!(matches!(r, Ok(Outcome::SecretVerified(false))));
}

#[test]
fn verify_secret_refuses_bad_commitments() {
    assert_eq!(
        verify_secret::execute("hi".to_string(), "9,x".to_string(), &small()),
        Err(Error::MalformedCommitment)
    );
    let r = execute(Command::VerifySecret { secret: "hi".to_string(), commitments: String::new() });
    assert!(matches!(r, Err(Error::MalformedCommitment)));
}

#[test]
fn verify_share_tells_right_from_wrong() {
    // f(x) = 5 + 3x modulo 11
    let shares = "1,8;2,1;3,3".to_string();
    let checked = verify_share::execute(shares, "9,8".to_string(), false, &small())
        .unwrap_or_else(|_| panic!());
    assert_eq!(checked.valid, vec![true, false, true]);
}

#[test]
fn verify_share_keeps_the_steps_when_asked() {
    let checked = verify_share::execute("7,4".to_string(), "9,8".to_string(), true, &small())
        .unwrap_or_else(|_| panic!());
    assert_eq!(checked.valid, vec![true]);
    assert_eq!(checked.checks.len(), 1);
    let check = &checked.checks[0];
    // 2^4 = 16; 9^1 = 9; 8^7 = 12; 9 * 12 = 108 = 16 (mod 23)
    assert_eq!(check.left_side, big(16));
    assert_eq!(check.right_side, big(16));
    assert_eq!(check.steps.len(), 2);
    assert_eq!(check.steps[0].exponent, big(1));
    assert_eq!(check.steps[0].term, big(9));
    assert_eq!(check.steps[0].running_product, big(9));
    assert_eq!(check.steps[1].exponent, big(7));
    assert_eq!(check.steps[1].term, big(12));
    assert_eq!(check.steps[1].running_product, big(16));
}

#[test]
fn the_steps_of_a_wrong_share_end_in_two_sides_that_differ() {
    let check = verify_share_verbose(
        &big(1),
        &big(7),
        &[big(9), big(8)],
        &big(2),
        &big(23),
        &big(11),
    );
    // 2^7 = 128 = 13; 9 * 8 = 72 = 3 (mod 23)
    assert_eq!(check.left_side, big(13));
    assert_eq!(check.right_side, big(3));
}

#[test]
fn verify_share_refuses_bad_text() {
    let r = verify_share::execute("1;8".to_string(), "9,8".to_string(), false, &small());
    assert!(matches!(r, Err(Error::MalformedShare)));
    let r = verify_share::execute("1,8".to_string(), "9 8".to_string(), false, &small());
    assert!(matches!(r, Err(Error::MalformedCommitment)));
    // the shares are read first
    let r = verify_share::execute("1;8".to_string(), "9 8".to_string(), true, &small());
    assert!(matches!(r, Err(Error::MalformedShare)));
    let r = execute(Command::VerifyShare {
        share: "x".to_string(),
        commitments: "1".to_string(),
        verbose: false,
    });
    assert!(matches!(r, Err(Error::MalformedShare)));
}

#[test]
fn reconstruct_with_small_parameters() {
    // f(x) = 5 + 3x modulo 11
    let rec =
        reconstruct::execute("1,8;3,3".to_string(), &small()).unwrap_or_else(|_| panic!());
    assert_eq!(rec.secret, big(5));
    assert_eq!(rec.text, Ok("\u{5}".to_string()));
}

#[test]
fn reconstruct_returns_the_number_when_it_is_no_text() {
    // the byte 0xff alone is not UTF-8
    let params = FieldParameters { p: big(1), q: big(257), g: big(1) };
    let rec = reconstruct::execute("1,255".to_string(), &params).unwrap_or_else(|_| panic!());
    assert_eq!(rec.secret, big(255));
    assert_eq!(rec.text, Err(Error::InvalidUtf8Secret));
}

#[test]
fn reconstruct_refuses_bad_shares() {
    let r = execute(Command::Reconstruct { shares: "1,2;3".to_string() });
    assert!(matches!(r, Err(Error::MalformedShare)));
    let r = execute(Command::Reconstruct { shares: String::new() });
    assert!(matches!(r, Err(Error::MalformedShare)));
}

#[test]
fn reconstruct_signals_shares_with_the_same_x() {
    let r = execute(Command::Reconstruct { shares: "1,2;1,3".to_string() });
    assert!(matches!(r, Err(Error::NonInvertibleDenominator)));
}

#[test]
fn plain_split_then_reconstruct() {
    let prime = 340282366920938463463374607431768211297u128;
    let shares = match plain::execute(Commands::Split {
        secret: "plain secret".to_string(),
        n: 5,
        k: 3,
        p: prime,
    }) {
        Ok(PlainOutcome::Split(shares)) => shares,
        _ => panic!("no shares"),
    };
    assert_eq!(shares.len(), 5);
    let three = vec![shares[4].clone(), shares[1].clone(), shares[2].clone()];
    match plain::execute(Commands::Reconstruct { prime, shares: shares_text(&three) }) {
        Ok(PlainOutcome::Reconstructed(rec)) => {
            assert_eq!(rec.text, Ok("plain secret".to_string()));
        }
        _ => panic!("no secret"),
    }
}

#[test]
fn plain_split_refuses_what_cannot_be_dealt() {
    let r = plain::execute(Commands::Split { secret: "hi".to_string(), n: 3, k: 2, p: 23 });
    assert!(matches!(r, Err(Error::SecretTooLarge)));
    let r = plain::execute(Commands::Split { secret: "hi".to_string(), n: 2, k: 3, p: 65537 });
    assert!(matches!(r, Err(Error::InvalidThreshold)));
}

#[test]
fn plain_reconstruct_with_a_small_prime() {
    // f(x) = 3 + 7x modulo 23
    let r = plain::execute(Commands::Reconstruct { prime: 23, shares: "1,10;3,1".to_string() });
    match r {
        Ok(PlainOutcome::Reconstructed(rec)) => assert_eq!(rec.secret, big(3)),
        _ => panic!("no secret"),
    }
    let r = plain::execute(Commands::Reconstruct { prime: 23, shares: "1,10;1,11".to_string() });
    assert!(matches!(r, Err(Error::NonInvertibleDenominator)));
    let r = plain::execute(Commands::Reconstruct { prime: 23, shares: "1;10".to_string() });
    assert!(matches!(r, Err(Error::MalformedShare)));
}

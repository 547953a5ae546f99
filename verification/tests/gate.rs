//! The throttle end to end: rate tracking, challenge issuance, validation.

use hmac::Hmac;
use hmac::Mac;
use sha2::Sha256;
use tinycomments::pow::PowTable;
use tinycomments::pow::Rejection;

/// The commitment a client (or the issuer) computes for key material and a
/// secret's text: HMAC-SHA-256 over the text, keyed by the hex of the key
/// material, hex-encoded.
fn commitment_for(key_bytes: &[u8; 32], secret_text: &[u8]) -> String {
    let hexkey = hex::encode(key_bytes);
    let mut mac = Hmac::<Sha256>::new_from_slice(hexkey.as_bytes()).unwrap();
    mac.update(secret_text);
    hex::encode(mac.finalize().into_bytes())
}

#[test]
fn five_attempts_all_admitted() {
    let mut t = PowTable::new();
    let ip = String::from("192.0.2.10");
    for i in 0..5u64 {
        let r = t.handle_at(&ip, &None, &None, i / 3);
        assert!(r.is_none());
    }
}

#[test]
fn sixth_attempt_draws_a_challenge() {
    let mut t = PowTable::new();
    let ip = String::from("192.0.2.11");
    for _ in 0..5 {
        assert!(t.get_challenge_at(ip.as_str(), 0).is_none());
    }
    let pow = t.get_challenge_at(ip.as_str(), 1).expect("sixth attempt must be challenged");
    assert_eq!(pow.key.len(), 64);
    assert_eq!(pow.challenge.len(), 64);
    assert!(pow.key.chars().all(|c| c.is_ascii_hexdigit()));
    assert!(pow.challenge.chars().all(|c| c.is_ascii_hexdigit()));
}

#[test]
fn counts_rise_then_expire() {
    let mut t = PowTable::new();
    let ip = String::from("192.0.2.12");
    for i in 0..6u32 {
        let c = t.get_txcount_at(ip.as_str(), true, 0);
        assert_eq!(c, i + 1);
    }
    assert_eq!(t.get_txcount_at(ip.as_str(), false, 29), 6);
    assert_eq!(t.get_txcount_at(ip.as_str(), false, 40), 0);
    assert!(t.get_challenge_at(ip.as_str(), 40).is_none());
}

#[test]
fn window_caps_at_thirty_two() {
    let mut t = PowTable::new();
    let ip = String::from("192.0.2.13");
    for i in 0..40u32 {
        let c = t.get_txcount_at(ip.as_str(), true, 5);
        if i < 32 {
            assert_eq!(c, i + 1);
        } else {
            assert_eq!(c, 32);
        }
    }
}

#[test]
fn probe_does_not_record() {
    let mut t = PowTable::new();
    let ip = String::from("192.0.2.14");
    assert_eq!(t.get_txcount_at(ip.as_str(), false, 7), 0);
    assert_eq!(t.get_txcount_at(ip.as_str(), false, 7), 0);
    assert_eq!(t.get_txcount_at(ip.as_str(), true, 7), 1);
    assert_eq!(t.get_txcount_at(ip.as_str(), false, 7), 1);
}

#[test]
fn issued_commitment_matches_recomputation() {
    let mut t = PowTable::new();
    let ip = String::from("198.51.100.9");
    let kb = [7u8; 32];
    let digits = vec![b'4', b'2'];
    let pow = t.make_challenge(ip.as_str(), &kb, &digits);
    assert_eq!(pow.key, "07".repeat(32));
    assert_eq!(pow.key, hex::encode(kb));
    assert_eq!(pow.challenge, commitment_for(&kb, b"42"));
}

#[test]
fn solved_challenge_is_single_use() {
    let mut t = PowTable::new();
    let ip = String::from("198.51.100.10");
    let kb = [9u8; 32];
    let digits = vec![b'7'];
    let pow = t.make_challenge(ip.as_str(), &kb, &digits);
    assert_eq!(t.validate_pow(&ip, &pow.challenge, "7"), Ok(()));
    assert_eq!(
        t.validate_pow(&ip, &pow.challenge, "7"),
        Err(Rejection::UnknownChallenge)
    );
}

#[test]
fn other_identity_is_turned_away() {
    let mut t = PowTable::new();
    let ip = String::from("198.51.100.11");
    let other = String::from("203.0.113.250");
    let kb = [11u8; 32];
    let digits = vec![b'3'];
    let pow = t.make_challenge(ip.as_str(), &kb, &digits);
    assert_eq!(
        t.validate_pow(&other, &pow.challenge, "3"),
        Err(Rejection::IdentityMismatch)
    );
    assert_eq!(t.validate_pow(&ip, &pow.challenge, "3"), Ok(()));
}

#[test]
fn wrong_solution_leaves_challenge_pending() {
    let mut t = PowTable::new();
    let ip = String::from("198.51.100.12");
    let kb = [13u8; 32];
    let digits = vec![b'8'];
    let pow = t.make_challenge(ip.as_str(), &kb, &digits);
    assert_eq!(
        t.validate_pow(&ip, &pow.challenge, "9"),
        Err(Rejection::WrongSolution)
    );
    assert_eq!(t.validate_pow(&ip, &pow.challenge, "8"), Ok(()));
}

#[test]
fn unknown_commitment_is_rejected() {
    let mut t = PowTable::new();
    let ip = String::from("198.51.100.13");
    assert_eq!(
        t.validate_pow(&ip, "deadbeef", "5"),
        Err(Rejection::UnknownChallenge)
    );
}

#[test]
fn full_gate_scenario() {
    let mut t = PowTable::new();
    let ip = String::from("203.0.113.7");
    let times = [0u64, 0, 1, 1, 2, 2];
    let mut minted: Option<(String, String)> = None;
    for (i, tm) in times.iter().enumerate() {
        let r = t.handle_at(&ip, &None, &None, *tm);
        if i < 5 {
            assert!(r.is_none());
        } else {
            let e = r.expect("sixth call within the window draws a challenge");
            assert_eq!(e.code, 401);
            assert!(e.status.is_none());
            minted = Some((e.key.unwrap(), e.challenge.unwrap()));
        }
    }
    let (key, commitment) = minted.unwrap();
    let mut found: Option<String> = None;
    for s in 0u64..(1 << 17) {
        let text = s.to_string();
        let mut mac = Hmac::<Sha256>::new_from_slice(key.as_bytes()).unwrap();
        mac.update(text.as_bytes());
        if hex::encode(mac.finalize().into_bytes()) == commitment {
            found = Some(text);
            break;
        }
    }
    let secret = found.expect("the secret lies within the advertised search space");
    let r = t.handle_at(&ip, &Some(commitment.clone()), &Some(secret.clone()), 3);
    assert!(r.is_none());
    let e = t
        .handle_at(&ip, &Some(commitment), &Some(secret), 3)
        .expect("a solved challenge cannot be replayed");
    assert_eq!(e.code, 403);
    assert_eq!(e.status.as_deref(), Some("Challenge not accepted."));
}

#[test]
fn incomplete_proof_is_malformed() {
    let mut t = PowTable::new();
    let ip = String::from("192.0.2.15");
    let e = t
        .handle_at(&ip, &Some(String::from("abcd")), &None, 0)
        .expect("a commitment without a secret is malformed");
    assert_eq!(e.code, 500);
    assert_eq!(
        e.status.as_deref(),
        Some("Challenge proof incomplete: no secret provided")
    );
    assert!(e.challenge.is_none());
    assert!(e.key.is_none());
}

#[test]
fn clocked_entry_points_behave_on_a_fresh_table() {
    let mut t = PowTable::new();
    let ip = String::from("192.0.2.16");
    assert_eq!(t.get_txcount(ip.as_str(), false), 0);
    assert_eq!(t.get_txcount(ip.as_str(), true), 1);
    assert!(t.get_challenge(ip.as_str()).is_none());
    assert!(t.handle(&ip, &None, &None).is_none());
    let e = t
        .handle(&ip, &Some(String::from("feed")), &Some(String::from("1")))
        .expect("an unknown commitment is rejected");
    assert_eq!(e.code, 403);
}

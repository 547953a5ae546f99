//! Wire renderings, request helpers, and the backing map.

use tinycomments::config::ConfigFile;
use tinycomments::config::DebugLevel;
use tinycomments::pow::probe_reply;
use tinycomments::pow::validate_reply;
use tinycomments::pow::Pow;
use tinycomments::pow::Rejection;
use tinycomments::requests::choose_client_ip;
use tinycomments::requests::vote_in_range;
use tinycomments::strmap::StrMap;

#[test]
fn probe_reply_codes() {
    let (code, key, challenge) = probe_reply(None);
    assert_eq!(code, 300);
    assert_eq!(key, "");
    assert_eq!(challenge, "");
    let (code, key, challenge) = probe_reply(Some(Pow {
        key: String::from("ab"),
        challenge: String::from("cd"),
    }));
    assert_eq!(code, 401);
    assert_eq!(key, "ab");
    assert_eq!(challenge, "cd");
}

#[test]
fn validate_reply_codes() {
    assert_eq!(validate_reply(&Ok(())), (200, String::from("OK")));
    assert_eq!(
        validate_reply(&Err(Rejection::UnknownChallenge)),
        (403, String::from("Invalid challenge"))
    );
    assert_eq!(
        validate_reply(&Err(Rejection::IdentityMismatch)),
        (403, String::from("Forbidden. Client IP Mismatch."))
    );
    assert_eq!(
        validate_reply(&Err(Rejection::WrongSolution)),
        (403, String::from("Forbidden"))
    );
}

#[test]
fn rejection_reasons() {
    assert_eq!(Rejection::UnknownChallenge.reason(), "Invalid challenge");
    assert_eq!(
        Rejection::IdentityMismatch.reason(),
        "Forbidden. Client IP Mismatch."
    );
    assert_eq!(Rejection::WrongSolution.reason(), "Forbidden");
}

#[test]
fn client_ip_precedence() {
    let f = Some(String::from("10.0.0.1"));
    let x = Some(String::from("10.0.0.2"));
    let p = Some(String::from("10.0.0.3"));
    assert_eq!(choose_client_ip(f.clone(), x.clone(), p.clone()), "10.0.0.1");
    assert_eq!(choose_client_ip(None, x.clone(), p.clone()), "10.0.0.2");
    assert_eq!(choose_client_ip(None, None, p), "10.0.0.3");
    assert_eq!(choose_client_ip(None, None, None), "");
    assert_eq!(choose_client_ip(Some(String::new()), x, None), "");
}

#[test]
fn vote_bounds() {
    assert!(vote_in_range(-1));
    assert!(vote_in_range(0));
    assert!(vote_in_range(1));
    assert!(!vote_in_range(2));
    assert!(!vote_in_range(-2));
    assert!(!vote_in_range(i64::MAX));
}

#[test]
fn strmap_binds_one_value_per_key() {
    let mut m: StrMap<u64> = StrMap::new();
    assert!(m.get(&String::from("a")).is_none());
    m.insert(String::from("a"), 1);
    m.insert(String::from("b"), 2);
    assert_eq!(m.get(&String::from("a")), Some(&1));
    assert_eq!(m.get(&String::from("b")), Some(&2));
    m.insert(String::from("a"), 3);
    assert_eq!(m.get(&String::from("a")), Some(&3));
    m.remove_key(&String::from("a"));
    assert!(m.get(&String::from("a")).is_none());
    assert_eq!(m.get(&String::from("b")), Some(&2));
}

#[test]
fn config_holds_its_fields() {
    let cfg = ConfigFile {
        bind_address: String::from("127.0.0.1"),
        bind_port: 8080,
        debug: DebugLevel::Info,
        db_path: String::from("comments.db"),
        enable_email_notifications: false,
        email_sender_name: None,
        email_sender_address: None,
        email_notify_address: None,
        email_smtp_host: None,
        email_smtp_user: None,
        email_smtp_pass: None,
    };
    assert_eq!(cfg.bind_address, "127.0.0.1");
    assert_eq!(cfg.bind_port, 8080);
    assert!(cfg.debug == DebugLevel::Info);
    assert!(!cfg.enable_email_notifications);
}

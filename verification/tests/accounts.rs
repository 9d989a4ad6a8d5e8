use actix_bootstrap::accounts::models::refresh_token;
use actix_bootstrap::accounts::models::user::{ActiveModel, Model, OtpReason, Timestamp};
use actix_bootstrap::accounts::models::ActiveValue;
use actix_bootstrap::accounts::{AccountsApiDoc, SUB_ROUTE};
use actix_bootstrap::common::Email;
use actix_bootstrap::hashing::{hex_digest, to_lower_hex};
use actix_bootstrap::utils::{compose_mail, generate_random_string};
use sha2::{Digest, Sha512};

fn sha512_hex(text: &str) -> String {
    Sha512::digest(text.as_bytes()).iter().map(|b| format!("{:02x}", b)).collect()
}

#[test]
fn hex_digest_known_vector() {
    assert_eq!(
        hex_digest("abc"),
        "ddaf35a193617abacc417349ae20413112e6fa4e89a97ea20a9eeee64b55d39a\
         2192992a274fc1a836ba3c23a3feebbd454d4423643ce80e2a9ac94fa54ca49f"
    );
}

#[test]
fn hex_digest_matches_sha2() {
    for text in ["", "a@b.c|0123456789secret", "ünïcödé"] {
        let d = hex_digest(text);
        assert_eq!(d.len(), 128);
        assert_eq!(d, sha512_hex(text));
    }
}

#[test]
fn lower_hex_of_bytes() {
    assert_eq!(to_lower_hex(&[]), "");
    assert_eq!(to_lower_hex(&[0x0a, 0x14, 0x1e]), "0a141e");
    assert_eq!(to_lower_hex(&[0x00, 0xff, 0x9c]), "00ff9c");
}

#[test]
fn random_string_has_requested_length_and_alphabet() {
    for n in [0usize, 1, 10, 64] {
        let s = generate_random_string(n);
        assert_eq!(s.chars().count(), n);
        assert!(s.chars().all(|c| c.is_ascii_alphanumeric()));
    }
}

#[test]
fn otp_reason_default() {
    assert_eq!(OtpReason::default(), OtpReason::EmailVerification);
}

#[test]
fn create_user_sets_only_the_address() {
    let u = ActiveModel::create_user("a@b.c", "secret");
    assert!(matches!(&u.email, ActiveValue::Assigned(e) if e == "a@b.c"));
    assert!(matches!(u.id, ActiveValue::NotSet));
    assert!(matches!(u.otp_reason, ActiveValue::NotSet));
    assert!(matches!(u.otp_expiry, ActiveValue::NotSet));
    assert!(matches!(u.digest, ActiveValue::NotSet));
    assert!(matches!(u.salt, ActiveValue::NotSet));
}

#[test]
fn set_password_with_salt_is_deterministic() {
    let mut u = ActiveModel::create_user("a@b.c", "ignored");
    u.set_password_with_salt("secret", "0123456789");
    match (&u.salt, &u.digest) {
        (ActiveValue::Assigned(s), ActiveValue::Assigned(d)) => {
            assert_eq!(s, "a@b.c|0123456789");
            assert_eq!(d, &sha512_hex("a@b.c|0123456789secret"));
            assert_eq!(d.len(), 128);
        },
        other => panic!("unexpected {:?}", other),
    }
    assert!(matches!(&u.email, ActiveValue::Assigned(e) if e == "a@b.c"));
}

#[test]
fn set_password_uses_stored_address() {
    let mut u = ActiveModel::default();
    u.email = ActiveValue::Unchanged("x@y.z".to_string());
    u.id = ActiveValue::Unchanged(7);
    u.set_password_with_salt("pw", "s");
    assert!(matches!(&u.salt, ActiveValue::Assigned(s) if s == "x@y.z|s"));
    assert!(matches!(u.id, ActiveValue::Unchanged(7)));
}

#[test]
fn set_password_draws_a_fresh_salt() {
    let mut u = ActiveModel::create_user("a@b.c", "");
    u.set_password("secret");
    let salt = match &u.salt {
        ActiveValue::Assigned(s) => s.clone(),
        other => panic!("unexpected {:?}", other),
    };
    let suffix = salt.strip_prefix("a@b.c|").expect("salt starts with the address");
    assert_eq!(suffix.len(), 10);
    assert!(suffix.chars().all(|c| c.is_ascii_alphanumeric()));
    assert!(matches!(&u.digest, ActiveValue::Assigned(d) if *d == sha512_hex(&format!("{}secret", salt))));
}

fn user(salt: &str, digest: &str) -> Model {
    Model {
        id: 1,
        email: "a@b.c".to_string(),
        otp_reason: OtpReason::default(),
        otp_expiry: Timestamp { secs: 0, nanos: 0 },
        digest: digest.to_string(),
        salt: salt.to_string(),
    }
}

#[test]
fn check_password_compares_digest_of_salt_and_digest() {
    let salt = "a@b.c|0123456789";
    let stored = sha512_hex(&format!("{}secret", salt));
    let u = user(salt, &stored);
    // the stored digest is not the digest of salt followed by itself
    assert!(!u.check_password("secret"));
    assert!(!u.check_password("other"));
}

#[test]
fn check_password_accepts_self_consistent_record() {
    // a record whose digest is "": true exactly when sha512(salt) is empty, which it never is
    let u = user("s", "");
    assert!(!u.check_password("anything"));
}

#[test]
fn compose_mail_fills_the_envelope() {
    let to = Email::parse("user@example.com").unwrap();
    let m = compose_mail("Welcome", &to, "<b>hi</b>", true).expect("valid addresses");
    assert_eq!(m.relay, "smtp.gmail.com");
    assert_eq!(m.from_name, "NoBody");
    assert_eq!(m.from_address, "nobody@domain.tld");
    assert_eq!(m.to_address, "user@example.com");
    assert_eq!(m.subject, "Welcome");
    assert!(m.html);
    assert_eq!(m.body, "<b>hi</b>");
    assert!(!compose_mail("s", &to, "b", false).unwrap().html);
}

#[test]
fn compose_mail_refuses_address_that_lettre_refuses() {
    let to = Email::parse("@.").unwrap();
    assert!("@.".parse::<lettre::Address>().is_err());
    assert!(compose_mail("s", &to, "b", false).is_none());
    let spaced = Email::parse("a b@c.d").unwrap();
    assert_eq!(compose_mail("s", &spaced, "b", false).is_some(), "a b@c.d".parse::<lettre::Address>().is_ok());
}

#[test]
fn accounts_sub_route_and_models() {
    assert_eq!(SUB_ROUTE, "/accounts");
    let _doc = AccountsApiDoc;
    let t = refresh_token::Model { id: 1, user_id: 2, refresh_token: "tok".to_string() };
    assert_eq!(t.refresh_token, "tok");
}

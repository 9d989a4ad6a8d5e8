use actix_bootstrap::common::Email;

#[test]
fn parse_accepts_plain_address() {
    let e = Email::parse("user@example.com").expect("valid address");
    assert_eq!(e.as_ref(), "user@example.com");
}

#[test]
fn parse_rejects_missing_at() {
    assert_eq!(Email::parse("userexample.com"), None);
}

#[test]
fn parse_rejects_two_ats() {
    assert_eq!(Email::parse("a@b@c.com"), None);
}

#[test]
fn parse_rejects_domain_without_dot() {
    assert_eq!(Email::parse("user@localhost"), None);
}

#[test]
fn parse_rejects_dot_only_before_at() {
    assert_eq!(Email::parse("first.last@localhost"), None);
}

#[test]
fn parse_accepts_minimal_parts() {
    assert_eq!(Email::parse("@.").map(|e| e.as_ref().to_string()), Some("@.".to_string()));
    assert!(Email::parse("a@.b").is_some());
    assert!(Email::parse("a@b.").is_some());
}

#[test]
fn parse_rejects_empty() {
    assert_eq!(Email::parse(""), None);
}

#[test]
fn parse_keeps_text_unchanged() {
    let e = Email::parse("Ünïcode@exämple.org").expect("valid address");
    assert_eq!(e.as_ref(), "Ünïcode@exämple.org");
}


use std::num::IntErrorKind;
use actix_bootstrap::gateway::url::{health_check_url, parse_backend_url, BackendUrlError, PortError};

fn ok(url: &str) -> (String, u16) {
    parse_backend_url(url).expect("valid address")
}

#[test]
fn http_address() {
    assert_eq!(ok("http://127.0.0.1:3344"), ("127.0.0.1".to_string(), 3344));
}

#[test]
fn https_address() {
    assert_eq!(ok("https://example.com:443"), ("example.com".to_string(), 443));
}

#[test]
fn address_without_scheme() {
    assert_eq!(ok("localhost:1111"), ("localhost".to_string(), 1111));
}

#[test]
fn ipv6_address_in_brackets() {
    assert_eq!(ok("[::1]:8080"), ("::1".to_string(), 8080));
    assert_eq!(ok("http://[::1]:8080"), ("::1".to_string(), 8080));
}

#[test]
fn ipv6_address_without_brackets_splits_at_last_colon() {
    assert_eq!(ok("::1:9000"), ("::1".to_string(), 9000));
}

#[test]
fn port_with_plus_sign_and_leading_zeros() {
    assert_eq!(ok("host:+80"), ("host".to_string(), 80));
    assert_eq!(ok("host:0080"), ("host".to_string(), 80));
    assert_eq!(ok("host:65535"), ("host".to_string(), 65535));
    assert_eq!(ok("host:0"), ("host".to_string(), 0));
}

#[test]
fn empty_host_is_allowed() {
    assert_eq!(ok("http://:80"), (String::new(), 80));
    assert_eq!(ok("[]:80"), (String::new(), 80));
}

#[test]
fn missing_port() {
    assert_eq!(parse_backend_url("localhost"), Err(BackendUrlError::MissingPort));
    assert_eq!(parse_backend_url("http://localhost"), Err(BackendUrlError::MissingPort));
    assert_eq!(parse_backend_url("http://"), Err(BackendUrlError::MissingPort));
    assert_eq!(parse_backend_url(""), Err(BackendUrlError::MissingPort));
}

#[test]
fn empty_port() {
    assert_eq!(parse_backend_url("http://host:"), Err(BackendUrlError::InvalidPort(PortError::Empty)));
    assert_eq!(parse_backend_url("http:"), Err(BackendUrlError::InvalidPort(PortError::Empty)));
}

#[test]
fn invalid_digit_in_port() {
    for url in ["host:abc", "host:+", "host:-", "host:-1", "host:8o", "host:80/", "host:1 "] {
        assert_eq!(
            parse_backend_url(url),
            Err(BackendUrlError::InvalidPort(PortError::InvalidDigit)),
            "{}",
            url
        );
    }
}

#[test]
fn port_too_large() {
    assert_eq!(parse_backend_url("host:65536"), Err(BackendUrlError::InvalidPort(PortError::PosOverflow)));
    assert_eq!(parse_backend_url("host:99999x"), Err(BackendUrlError::InvalidPort(PortError::PosOverflow)));
    assert_eq!(parse_backend_url("host:6553x"), Err(BackendUrlError::InvalidPort(PortError::InvalidDigit)));
}

#[test]
fn port_errors_agree_with_std() {
    for p in ["", "+", "-", "12", "+12", "-12", "65535", "65536", "999999", "1x", "99999x", "0000000000080", "٣"] {
        let url = format!("h:{}", p);
        let ours = parse_backend_url(&url);
        match p.parse::<u16>() {
            Ok(v) => assert_eq!(ours, Ok(("h".to_string(), v)), "{}", p),
            Err(e) => {
                let kind = match e.kind() {
                    IntErrorKind::Empty => PortError::Empty,
                    IntErrorKind::InvalidDigit => PortError::InvalidDigit,
                    IntErrorKind::PosOverflow => PortError::PosOverflow,
                    other => panic!("unexpected {:?}", other),
                };
                assert_eq!(ours, Err(BackendUrlError::InvalidPort(kind)), "{}", p);
            },
        }
    }
}

#[test]
fn round_trip_of_written_address() {
    for (host, port) in [("10.0.0.7", 1u16), ("::1", 65535), ("", 0), ("svc.local", 8080)] {
        assert_eq!(ok(&format!("http://{}:{}", host, port)), (host.to_string(), port));
        assert_eq!(ok(&format!("http://[{}]:{}", host, port)), (host.to_string(), port));
    }
}

#[test]
fn health_check_url_joins_without_double_slash() {
    assert_eq!(health_check_url("http://127.0.0.1:3344", "/health"), "http://127.0.0.1:3344/health");
    assert_eq!(health_check_url("http://127.0.0.1:3344/", "/health"), "http://127.0.0.1:3344/health");
    assert_eq!(health_check_url("http://127.0.0.1:3344///", "/health"), "http://127.0.0.1:3344/health");
    assert_eq!(health_check_url("///", "/health"), "/health");
    assert_eq!(health_check_url("http://h:1", ""), "http://h:1");
}

use tesla_auth::codec::{parse_claims, write_claims};
use tesla_auth::config::AppConfig;
use tesla_auth::errors::AppConfigError;

#[test]
fn claims_payload_has_the_exact_canonical_form() {
    let payload = write_claims(&b"alice".to_vec(), 1000);
    assert_eq!(payload, b"{\"sub\":\"alice\",\"exp\":1000}".to_vec());
}

#[test]
fn claims_payload_escapes_metacharacters() {
    let payload = write_claims(&b"a\"b\\c\nd".to_vec(), 7);
    assert_eq!(payload, b"{\"sub\":\"a\\\"b\\\\c\\u000ad\",\"exp\":7}".to_vec());
}

#[test]
fn parse_inverts_write() {
    for (sub, exp) in [
        (b"alice".to_vec(), 0usize),
        (b"".to_vec(), 1),
        (b"a\"b\\c\x01d\x1f".to_vec(), usize::MAX),
        ("sm\u{f6}rg\u{e5}s".as_bytes().to_vec(), 1_700_000_000),
    ] {
        let payload = write_claims(&sub, exp);
        let (sub2, exp2) = parse_claims(&payload).unwrap();
        assert_eq!(sub2, sub);
        assert_eq!(exp2, exp);
    }
}

#[test]
fn parser_rejects_non_canonical_payloads() {
    for bad in [
        &b""[..],
        b"{}",
        b"{\"sub\":\"a\",\"exp\":1000",
        b"{\"sub\":\"a\",\"exp\":1000}x",
        b"{\"sub\":\"a\",\"exp\":01}",
        b"{\"sub\":\"a\",\"exp\":}",
        b"{\"sub\":\"a\",\"exp\":-1}",
        b"{\"sub\":\"a\"}",
        b"{\"sub\":\"a\",\"exp\":99999999999999999999999}",
        b"{\"sub\":\"a\\u0041\",\"exp\":1}",
        b"{\"sub\":\"a\\x\",\"exp\":1}",
        b"{\"sub\":\"a\x01\",\"exp\":1}",
        b"{\"exp\":1,\"sub\":\"a\"}",
        b" {\"sub\":\"a\",\"exp\":1}",
    ] {
        assert!(parse_claims(&bad.to_vec()).is_none(), "accepted {:?}", bad);
    }
}

#[test]
fn parser_accepts_exactly_the_largest_expiry() {
    let max = write_claims(&b"a".to_vec(), usize::MAX);
    assert_eq!(parse_claims(&max).unwrap().1, usize::MAX);
    // One more than the largest representable expiry is rejected.
    let mut over = b"{\"sub\":\"a\",\"exp\":".to_vec();
    over.extend_from_slice(b"18446744073709551616}");
    assert!(parse_claims(&over).is_none());
}

#[test]
fn app_config_validate_boundaries() {
    let cfg = |secret: &str, port: u16| AppConfig {
        database_url: "postgres://localhost/db".to_string(),
        jwt_secret: secret.to_string(),
        server_port: port,
    };
    assert!(cfg(&"s".repeat(32), 8080).validate().is_ok());
    let r = cfg(&"s".repeat(31), 8080).validate();
    assert!(matches!(r.unwrap_err(), AppConfigError::Validation(_)));
    assert!(cfg(&"s".repeat(32), 1024).validate().is_ok());
    assert!(cfg(&"s".repeat(32), 1023).validate().is_err());
    assert!(cfg(&"s".repeat(40), 65535).validate().is_ok());
}

use tesla_auth::auth::{AuthService, StoreLookup};
use tesla_auth::errors::AuthError;
use tesla_auth::middleware::{admit_token, JwtAuth, JwtAuthMiddleware};
use tesla_auth::models::User;

const SECRET: &str = "another-secret-key-of-enough-length!";
const NOW: usize = 1_700_000_000;

fn issue_token(now: usize) -> String {
    let svc = AuthService::new(SECRET.to_string());
    let user = User {
        id: 1,
        name: "alice".to_string(),
        email: "alice@example.com".to_string(),
        password_hash: bcrypt::hash("correctpw", 4).unwrap(),
    };
    svc.authenticate(StoreLookup::Found(user), "correctpw", now)
        .unwrap()
        .token
}

fn middleware() -> JwtAuthMiddleware {
    JwtAuth::new(SECRET.to_string()).new_transform()
}

#[test]
fn round_trip_fresh_token_is_admitted() {
    let token = issue_token(NOW);
    let header = format!("Bearer {}", token);
    let r = middleware().call(Some(&header), NOW);
    assert_eq!(r, Ok("alice".to_string()));
}

#[test]
fn validating_twice_gives_the_same_outcome() {
    let token = issue_token(NOW);
    let header = format!("Bearer {}", token);
    let m = middleware();
    let first = m.call(Some(&header), NOW + 100);
    let second = m.call(Some(&header), NOW + 100);
    assert_eq!(first, second);
    let expired_first = m.call(Some(&header), NOW + 90000);
    let expired_second = m.call(Some(&header), NOW + 90000);
    assert_eq!(expired_first, expired_second);
}

#[test]
fn expiry_boundary_is_inclusive() {
    let token = issue_token(NOW);
    let header = format!("Bearer {}", token);
    let exp = NOW + 86400;
    // A token with exp == now is still admitted.
    assert_eq!(middleware().call(Some(&header), exp), Ok("alice".to_string()));
    // One second past its expiry it is rejected.
    assert_eq!(
        middleware().call(Some(&header), exp + 1),
        Err(AuthError::InvalidCredentials)
    );
}

#[test]
fn expired_token_is_rejected() {
    let token = issue_token(NOW - 200_000);
    let header = format!("Bearer {}", token);
    let r = middleware().call(Some(&header), NOW);
    assert_eq!(r, Err(AuthError::InvalidCredentials));
}

#[test]
fn missing_authorization_header_is_rejected() {
    let r = middleware().call(None, NOW);
    assert_eq!(r, Err(AuthError::InvalidCredentials));
}

#[test]
fn malformed_authorization_header_is_rejected() {
    let m = middleware();
    for header in [
        "".to_string(),
        "Bearer".to_string(),
        "Token abc.def.ghi".to_string(),
        "bearer abc.def.ghi".to_string(),
        "Bearer not-a-token".to_string(),
        "Bearer a.b".to_string(),
        "Bearer a.b.c.d".to_string(),
    ] {
        assert_eq!(m.call(Some(&header), NOW), Err(AuthError::InvalidCredentials));
    }
}

#[test]
fn wrong_secret_is_rejected() {
    let token = issue_token(NOW);
    let header = format!("Bearer {}", token);
    let other = JwtAuth::new("a-completely-different-secret-value".to_string()).new_transform();
    assert_eq!(other.call(Some(&header), NOW), Err(AuthError::InvalidCredentials));
}

#[test]
fn flipping_any_bit_of_the_signature_rejects() {
    let token = issue_token(NOW);
    let bytes = token.as_bytes();
    let sig_start = token.rfind('.').unwrap() + 1;
    let m = middleware();
    for i in sig_start..bytes.len() {
        for bit in 0..8 {
            let mut tampered = bytes.to_vec();
            tampered[i] ^= 1 << bit;
            match String::from_utf8(tampered) {
                // A flip outside ASCII cannot even form a header value.
                Err(_) => continue,
                Ok(t) => {
                    assert_ne!(t, token);
                    let header = format!("Bearer {}", t);
                    assert_eq!(
                        m.call(Some(&header), NOW),
                        Err(AuthError::InvalidCredentials),
                        "tampered byte {} bit {} was admitted",
                        i,
                        bit
                    );
                },
            }
        }
    }
}

#[test]
fn tampered_payload_is_rejected() {
    let token = issue_token(NOW);
    let first_dot = token.find('.').unwrap();
    let second_dot = token.rfind('.').unwrap();
    let bytes = token.as_bytes();
    let m = middleware();
    for i in (first_dot + 1)..second_dot {
        let mut tampered = bytes.to_vec();
        tampered[i] ^= 0x02;
        if let Ok(t) = String::from_utf8(tampered) {
            let header = format!("Bearer {}", t);
            assert_eq!(m.call(Some(&header), NOW), Err(AuthError::InvalidCredentials));
        }
    }
}

#[test]
fn admit_token_decides_by_the_expected_signature() {
    let token = issue_token(NOW);
    let t: Vec<u8> = token.clone().into_bytes();
    let parts: Vec<&str> = token.split('.').collect();
    let header_seg: Vec<u8> = parts[0].as_bytes().to_vec();
    let message = format!("{}.{}", parts[0], parts[1]);
    let sig = jsonwebtoken::crypto::sign(
        message.as_bytes(),
        &jsonwebtoken::EncodingKey::from_secret(SECRET.as_bytes()),
        jsonwebtoken::Algorithm::HS256,
    )
    .unwrap()
    .into_bytes();
    assert_eq!(admit_token(&t, &sig, &header_seg, NOW), Some(b"alice".to_vec()));
    // A different expected signature rejects the same token.
    let mut other_sig = sig.clone();
    other_sig[0] ^= 1;
    assert_eq!(admit_token(&t, &other_sig, &header_seg, NOW), None);
    // A different expected header segment rejects it too.
    assert_eq!(admit_token(&t, &sig, &b"eyJhbGciOiJub25lIn0".to_vec(), NOW), None);
}

#[test]
fn token_segments_are_real_base64_and_hmac() {
    let token = issue_token(NOW);
    let parts: Vec<&str> = token.split('.').collect();
    assert_eq!(parts.len(), 3);
    // The header segment is the canonical HS256 header, base64-url-encoded.
    assert_eq!(parts[0], "eyJ0eXAiOiJKV1QiLCJhbGciOiJIUzI1NiJ9");
    // The signature segment is jsonwebtoken's HS256 tag over the message.
    let message = format!("{}.{}", parts[0], parts[1]);
    let expected = jsonwebtoken::crypto::sign(
        message.as_bytes(),
        &jsonwebtoken::EncodingKey::from_secret(SECRET.as_bytes()),
        jsonwebtoken::Algorithm::HS256,
    )
    .unwrap();
    assert_eq!(parts[2], expected);
}

use tesla_auth::auth::{AuthService, StoreLookup};
use tesla_auth::errors::AuthError;
use tesla_auth::handlers::{login, LoginRequest};
use tesla_auth::middleware::JwtAuth;
use tesla_auth::models::User;

const SECRET: &str = "0123456789abcdef0123456789abcdef";
const NOW: usize = 1_700_000_000;

fn alice_with_password(password: &str) -> User {
    User {
        id: 1,
        name: "alice".to_string(),
        email: "alice@example.com".to_string(),
        password_hash: bcrypt::hash(password, 4).unwrap(),
    }
}

fn gate(token: &str, now: usize) -> Result<String, AuthError> {
    let header = format!("Bearer {}", token);
    JwtAuth::new(SECRET.to_string())
        .new_transform()
        .call(Some(&header), now)
}

#[test]
fn login_success_issues_token_with_expiry() {
    let svc = AuthService::new(SECRET.to_string());
    let user = alice_with_password("correctpw");
    let resp = svc
        .authenticate(StoreLookup::Found(user), "correctpw", NOW)
        .unwrap();
    assert_eq!(resp.expires_at, NOW + 86400);
    assert!(!resp.token.is_empty());
    assert_eq!(resp.token.matches('.').count(), 2);
    // The freshly issued token admits the request and names alice.
    assert_eq!(gate(&resp.token, NOW), Ok("alice".to_string()));
}

#[test]
fn login_wrong_password_unauthorized() {
    let svc = AuthService::new(SECRET.to_string());
    let user = alice_with_password("correctpw");
    let r = svc.authenticate(StoreLookup::Found(user), "wrongpw", NOW);
    assert_eq!(r.unwrap_err(), AuthError::InvalidCredentials);
}

#[test]
fn unknown_user_and_wrong_password_are_indistinguishable() {
    let svc = AuthService::new(SECRET.to_string());
    let user = alice_with_password("correctpw");
    let wrong_pw = svc
        .authenticate(StoreLookup::Found(user), "wrongpw", NOW)
        .unwrap_err();
    let no_user = svc
        .authenticate(StoreLookup::NotFound, "correctpw", NOW)
        .unwrap_err();
    assert_eq!(wrong_pw, no_user);
    assert_eq!(no_user, AuthError::InvalidCredentials);
}

#[test]
fn store_unavailable_is_pool_error() {
    let svc = AuthService::new(SECRET.to_string());
    let r = svc.authenticate(StoreLookup::Unavailable, "correctpw", NOW);
    assert_eq!(r.unwrap_err(), AuthError::PoolError);
}

#[test]
fn corrupt_stored_hash_is_bcrypt_error() {
    let svc = AuthService::new(SECRET.to_string());
    let user = User {
        id: 2,
        name: "bob".to_string(),
        email: "bob@example.com".to_string(),
        password_hash: "not-a-bcrypt-hash".to_string(),
    };
    let r = svc.authenticate(StoreLookup::Found(user), "whatever", NOW);
    assert_eq!(r.unwrap_err(), AuthError::BcryptError);
}

#[test]
fn subject_with_json_metacharacters_round_trips() {
    let svc = AuthService::new(SECRET.to_string());
    let name = "al\"i\\ce\nwith\tcontrol";
    let user = User {
        id: 3,
        name: name.to_string(),
        email: "x@example.com".to_string(),
        password_hash: bcrypt::hash("pw", 4).unwrap(),
    };
    let resp = svc
        .authenticate(StoreLookup::Found(user), "pw", NOW)
        .unwrap();
    assert_eq!(gate(&resp.token, NOW), Ok(name.to_string()));
}

#[test]
fn login_flow_rejects_malformed_body_first() {
    let svc = AuthService::new(SECRET.to_string());
    let user = alice_with_password("correctpw");
    let short_user = LoginRequest::new("al".to_string(), "correctpw".to_string());
    let r = login(&svc, &short_user, StoreLookup::Found(user.clone()), NOW);
    assert!(matches!(r.unwrap_err(), AuthError::ValidationError(_)));
    let short_pw = LoginRequest::new("alice".to_string(), "corr".to_string());
    let r = login(&svc, &short_pw, StoreLookup::Found(user.clone()), NOW);
    assert!(matches!(r.unwrap_err(), AuthError::ValidationError(_)));
    let good = LoginRequest::new("alice".to_string(), "correctpw".to_string());
    let r = login(&svc, &good, StoreLookup::Found(user), NOW);
    assert_eq!(r.unwrap().expires_at, NOW + 86400);
}

#[test]
fn login_flow_wrong_password_of_valid_length_is_unauthorized() {
    let svc = AuthService::new(SECRET.to_string());
    let user = alice_with_password("correctpw");
    let body = LoginRequest::new("alice".to_string(), "wrongpass".to_string());
    let r = login(&svc, &body, StoreLookup::Found(user), NOW);
    assert_eq!(r.unwrap_err(), AuthError::InvalidCredentials);
}

#[test]
fn login_request_validate_boundaries() {
    let ok = |u: &str, p: &str| {
        LoginRequest::new(u.to_string(), p.to_string())
            .validate()
            .is_ok()
    };
    assert!(!ok("ab", "password"));
    assert!(ok("abc", "password"));
    assert!(ok(&"u".repeat(50), "password"));
    assert!(!ok(&"u".repeat(51), "password"));
    assert!(!ok("alice", "1234567"));
    assert!(ok("alice", "12345678"));
}

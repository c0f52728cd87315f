//! The login request and response bodies, with the structural checks that
//! run before a request reaches the authentication service.
use vstd::prelude::*;

use crate::auth::AuthService;
use crate::auth::StoreLookup;
use crate::errors::AuthError;
use crate::jwt::token_bytes_of;
use crate::jwt::token_facts;
use crate::password::bcrypt_verify_of;
use vstd::string::StrSliceExecFns;
use vstd::utf8::encode_utf8;

verus! {

/// A login request body.  `validate` enforces the minimum length and
/// format constraints before the credentials are used.
#[derive(Debug, Clone)]
pub struct LoginRequest {
    pub username: String,
    pub password: String,
}

impl LoginRequest {
    pub fn new(username: String, password: String) -> (r: Self)
        ensures
            r.username == username,
            r.password == password,
    {
        Self { username, password }
    }

    /// Structural check of the body: the username must be 3 to 50
    /// characters and the password at least 8.  Exactly the bodies inside
    /// those bounds pass; anything else is a `ValidationError`.
    pub fn validate(&self) -> (r: Result<(), AuthError>)
        ensures
            r is Ok <==> (3 <= self.username@.len() <= 50 && self.password@.len() >= 8),
            r matches Err(e) ==> e matches AuthError::ValidationError(_),
    {
        let ulen = self.username.as_str().unicode_len();
        let plen = self.password.as_str().unicode_len();
        if ulen < 3 || ulen > 50 || plen < 8 {
            Err(AuthError::ValidationError("login request fails length constraints".to_owned()))
        } else {
            Ok(())
        }
    }
}

/// What a successful login returns: the bearer token and its absolute
/// expiry instant in seconds since the epoch.
#[derive(Debug, Clone)]
pub struct AuthResponse {
    pub token: String,
    pub expires_at: usize,
}

/// The login flow behind the login endpoint: check the request body's
/// structure, then authenticate against the store's reply and mint a
/// token.  A malformed body is rejected as `ValidationError` before any
/// credential is examined; otherwise the outcome is exactly that of
/// [`AuthService::authenticate`] on the body's credentials, and valid
/// credentials always yield a token.
pub fn login(auth_service: &AuthService, req: &LoginRequest, lookup: StoreLookup, now: usize) -> (r:
    Result<AuthResponse, AuthError>)
    requires
        now <= usize::MAX - 86400,
    ensures
        !(3 <= req.username@.len() <= 50 && req.password@.len() >= 8) ==> (r matches Err(e)
            && e matches AuthError::ValidationError(_)),
        (3 <= req.username@.len() <= 50 && req.password@.len() >= 8) ==> {
            &&& lookup is Unavailable ==> r == Err::<AuthResponse, AuthError>(AuthError::PoolError)
            &&& lookup is NotFound ==> r == Err::<AuthResponse, AuthError>(
                AuthError::InvalidCredentials,
            )
            &&& lookup matches StoreLookup::Found(u) ==> {
                &&& bcrypt_verify_of(req.password@, u.password_hash@) is None ==> r == Err::<
                    AuthResponse,
                    AuthError,
                >(AuthError::BcryptError)
                &&& bcrypt_verify_of(req.password@, u.password_hash@) == Some(false) ==> r == Err::<
                    AuthResponse,
                    AuthError,
                >(AuthError::InvalidCredentials)
                &&& bcrypt_verify_of(req.password@, u.password_hash@) == Some(true) ==> {
                    &&& r is Ok
                    &&& r matches Ok(a) ==> {
                        let sb = encode_utf8(u.name@);
                        let key = encode_utf8(auth_service.jwt_secret@);
                        &&& a.expires_at == now + 86400
                        &&& encode_utf8(a.token@) == token_bytes_of(
                            sb,
                            (now + 86400) as usize,
                            key,
                        )
                        &&& token_facts(sb, (now + 86400) as usize, key)
                    }
                }
            }
        },
{
    match req.validate() {
        Err(e) => Err(e),
        Ok(()) => auth_service.authenticate(lookup, req.password.as_str(), now),
    }
}

} // verus!

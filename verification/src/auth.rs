//! Authentication service: orchestrates the credential-store lookup, the
//! password verifier and the token issuer into a single `authenticate`
//! operation.
//!
//! The store itself is an external collaborator reached over a connection
//! pool; the caller performs the lookup and hands its outcome in as a
//! [`StoreLookup`], so the decision logic here is checked for every
//! possible reply.  A missing user and a wrong password surface as the
//! same `InvalidCredentials`, so the response never reveals whether a
//! username exists.
use vstd::prelude::*;

use crate::errors::AuthError;
use crate::handlers::AuthResponse;
use crate::jwt::issue;
use crate::jwt::token_bytes_of;
use crate::jwt::token_facts;
use crate::middleware::Claims;
use crate::models::User;
use crate::password::bcrypt_verify_of;
use crate::password::verify_password;
use vstd::string::StrSliceExecFns;
use vstd::utf8::encode_utf8;

verus! {

/// Seconds in the fixed validity window of a token: 24 hours.
pub const TOKEN_VALIDITY_SECS: usize = 86400;

/// The outcome of asking the credential store for a username.
#[derive(Debug, Clone)]
pub enum StoreLookup {
    /// The store returned this user's record.
    Found(User),
    /// The store answered and holds no such username.
    NotFound,
    /// No connection could be acquired; the caller may retry.
    Unavailable,
}

/// The authentication service.  It holds only the immutable signing
/// secret; nothing here is mutated after construction, so one value may
/// serve any number of concurrent requests.
#[derive(Clone)]
pub struct AuthService {
    pub jwt_secret: String,
}

impl AuthService {
    pub fn new(jwt_secret: String) -> (r: Self)
        ensures
            r.jwt_secret == jwt_secret,
    {
        Self { jwt_secret }
    }

    /// Authenticate a password against the store's reply and mint a token.
    ///
    /// An unavailable store is a `PoolError`; an unknown user and a wrong
    /// password are the same `InvalidCredentials`; a corrupt stored hash is
    /// a `BcryptError`.  Valid credentials always succeed: the response
    /// carries a token for the record's name expiring exactly `now + 24h`,
    /// as [`token_bytes_of`] describes it.
    pub fn authenticate(&self, lookup: StoreLookup, password: &str, now: usize) -> (r: Result<
        AuthResponse,
        AuthError,
    >)
        requires
            now <= usize::MAX - 86400,
        ensures
            lookup is Unavailable ==> r == Err::<AuthResponse, AuthError>(AuthError::PoolError),
            lookup is NotFound ==> r == Err::<AuthResponse, AuthError>(
                AuthError::InvalidCredentials,
            ),
            lookup matches StoreLookup::Found(u) ==> {
                &&& bcrypt_verify_of(password@, u.password_hash@) is None ==> r == Err::<
                    AuthResponse,
                    AuthError,
                >(AuthError::BcryptError)
                &&& bcrypt_verify_of(password@, u.password_hash@) == Some(false) ==> r == Err::<
                    AuthResponse,
                    AuthError,
                >(AuthError::InvalidCredentials)
                &&& bcrypt_verify_of(password@, u.password_hash@) == Some(true) ==> {
                    &&& r is Ok
                    &&& r matches Ok(a) ==> {
                        let sb = encode_utf8(u.name@);
                        let key = encode_utf8(self.jwt_secret@);
                        &&& a.expires_at == now + 86400
                        &&& encode_utf8(a.token@) == token_bytes_of(
                            sb,
                            (now + 86400) as usize,
                            key,
                        )
                        &&& token_facts(sb, (now + 86400) as usize, key)
                    }
                }
            },
    {
        let user = match lookup {
            StoreLookup::Unavailable => {
                return Err(AuthError::PoolError);
            },
            StoreLookup::NotFound => {
                return Err(AuthError::InvalidCredentials);
            },
            StoreLookup::Found(user) => user,
        };
        let is_valid = match verify_password(password, user.password_hash.as_str()) {
            Err(e) => {
                return Err(e);
            },
            Ok(b) => b,
        };
        if !is_valid {
            return Err(AuthError::InvalidCredentials);
        }
        let expiration = now + 86400;
        let claims = Claims { sub: user.name, exp: expiration };
        let secret_bytes = self.jwt_secret.as_str().as_bytes_vec();
        match issue(&claims, &secret_bytes) {
            Err(e) => Err(e),
            Ok(token) => Ok(AuthResponse { token, expires_at: expiration }),
        }
    }
}

} // verus!

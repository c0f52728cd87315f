//! Error taxonomy for the authentication core.
//!
//! All credential- and token-specific failures collapse to
//! `InvalidCredentials` at the authentication boundary, so a caller cannot
//! tell a missing user from a wrong password or a bad token.  Infrastructure
//! failures keep their own variants and are surfaced as generic server-side
//! failures by the transport layer.
use vstd::prelude::*;

verus! {

/// Failure of configuration loading or validation.
#[derive(Debug, Clone, PartialEq, Eq)]
pub enum AppConfigError {
    /// A required environment variable is absent.
    MissingEnvVar(String),
    /// An environment variable is present but unusable.
    InvalidEnvVar(String),
    /// The assembled database URL does not parse.
    InvalidDatabaseUrl(String),
    /// A structural constraint on the configuration failed.
    Validation(String),
}

/// Failure of authentication or of request gating.
#[derive(Debug, Clone, PartialEq, Eq)]
pub enum AuthError {
    /// The credential store returned an error while it was queried.
    DatabaseError,
    /// No connection could be acquired from the store's connection pool.
    PoolError,
    /// The stored password hash is not in the expected format.
    BcryptError,
    /// Signing the token failed.
    JwtError,
    /// Unknown user, wrong password, or a missing/malformed/expired token.
    InvalidCredentials,
    /// The configuration was unusable.
    ConfigError(AppConfigError),
    /// The request body failed its structural constraints.
    ValidationError(String),
}

} // verus!

//! Credential authentication and bearer-token authorization.
//!
//! The library verifies passwords against stored adaptive hashes, mints
//! signed, time-bounded bearer tokens for authenticated users, and gates
//! requests to protected resources by validating those tokens.  Tokens are
//! self-contained: no session state is kept, and validity is decided only
//! by the signature and by comparing the expiry with the clock.
//!
//! Every function here carries a contract checked by Verus.  Calls into
//! the hashing, signing and base64 crates stand behind small trusted
//! wrappers whose contracts state what those crates document.
pub mod auth;
pub mod codec;
pub mod config;
pub mod errors;
pub mod handlers;
pub mod jwt;
pub mod middleware;
pub mod models;
pub mod password;

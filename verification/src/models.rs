//! Records read from the credential store.
use vstd::prelude::*;

verus! {

/// A user record as the credential store returns it.  The store owns these
/// rows; this core only reads them.  `name` is the unique authentication
/// subject and `password_hash` an adaptive-hash digest, opaque here.
#[derive(Debug, Clone)]
pub struct User {
    pub id: i32,
    pub name: String,
    pub email: String,
    pub password_hash: String,
}

} // verus!

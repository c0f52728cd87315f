//! Application configuration.  Loading from the environment is the
//! caller's concern; this module only states and checks the structural
//! constraints the core relies on.
use vstd::prelude::*;

use crate::errors::AppConfigError;
use vstd::string::StrSliceExecFns;

verus! {

/// Process-wide configuration, immutable after startup.
#[derive(Debug, Clone)]
pub struct AppConfig {
    pub database_url: String,
    pub jwt_secret: String,
    pub server_port: u16,
}

impl AppConfig {
    /// Check the constraints the core needs: a signing secret of at least
    /// 32 characters and a non-privileged port.  (That `database_url` is a
    /// well-formed URL is checked by the loader that assembles it.)
    pub fn validate(&self) -> (r: Result<(), AppConfigError>)
        ensures
            r is Ok <==> (self.jwt_secret@.len() >= 32 && self.server_port >= 1024),
            r matches Err(e) ==> e matches AppConfigError::Validation(_),
    {
        let slen = self.jwt_secret.as_str().unicode_len();
        if slen < 32 || self.server_port < 1024 {
            Err(AppConfigError::Validation("configuration fails its constraints".to_owned()))
        } else {
            Ok(())
        }
    }
}

} // verus!

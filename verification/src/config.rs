//! The run configuration handed in before the pipeline starts.
//!
//! Loading the file itself is I/O and lives with the caller; the library
//! holds the configuration as plain values and owns the one rule in it:
//! the cache directory path defaults when the file names none.

use vstd::prelude::*;
use vstd::string::StringExecFns;

verus! {

/// The stored login credentials; the one-time code is not among them — it
/// is supplied interactively, once per run.
pub struct LoginData {
    pub username: String,
    pub password: String,
}

/// The run configuration: credentials and the cache directory for
/// downloaded media.
pub struct Config {
    pub login: LoginData,
    pub cache_path: String,
}

/// The cache directory used when the configuration names none.
pub fn default_cache_path() -> (r: String)
    ensures
        r@ == ".cache"@,
{
    String::from_str(".cache")
}

impl Config {
    /// Builds the configuration, applying the cache-path default.
    pub fn new(login: LoginData, cache_path: Option<String>) -> (c: Config)
        ensures
            c.login == login,
            match cache_path {
                Some(p) => c.cache_path == p,
                None => c.cache_path@ == ".cache"@,
            },
    {
        let cache_path = match cache_path {
            Some(p) => p,
            None => default_cache_path(),
        };
        Config { login, cache_path }
    }
}

} // verus!

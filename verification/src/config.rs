//! Server defaults and the rule that normalizes the API key.
use vstd::prelude::*;

use crate::text::{opt_chars, trim, trim_str};

verus! {

/// The address the server listens on by default.
pub const DEFAULT_HOST: &'static str = "127.0.0.1";
/// The port the server listens on by default.
pub const DEFAULT_PORT: u16 = 8000;
/// The model name the server serves by default.
pub const DEFAULT_MODEL: &'static str = "seed-asr";

/// Why a server configuration is refused.
#[derive(Debug, Clone, PartialEq, Eq)]
pub enum ConfigError {
    /// The host is not an IP address.
    InvalidHost(String),
}

impl ConfigError {
    /// The message that describes the error.
    pub open spec fn spec_message(&self) -> Seq<char> {
        match self {
            ConfigError::InvalidHost(host) => "invalid host `"@ + host@ + "`"@,
        }
    }

    /// The message that describes the error.
    pub fn to_string(&self) -> (r: String)
        ensures
            r@ == self.spec_message(),
    {
        match self {
            ConfigError::InvalidHost(host) => {
                let mut out = String::new();
                out.append("invalid host `");
                out.append(host.as_str());
                out.append("`");
                assert(out@ =~= self.spec_message());
                out
            },
        }
    }
}

/// The API key once trimmed; a key of white space alone is no key.
pub open spec fn normalized_api_key(api_key: Option<Seq<char>>) -> Option<Seq<char>> {
    match api_key {
        Some(key) => if trim(key).len() == 0 {
            None
        } else {
            Some(trim(key))
        },
        None => None,
    }
}

/// The API key that the server requires, from the one given: trimmed, and
/// none when it is empty. A server on any host may run without a key.
pub fn resolve_api_key(api_key: Option<String>) -> (r: Option<String>)
    ensures
        opt_chars(r) == normalized_api_key(opt_chars(api_key)),
{
    match api_key {
        Some(k) => {
            let trimmed = trim_str(k.as_str());
            if trimmed.as_str().is_empty() {
                None
            } else {
                Some(trimmed)
            }
        },
        None => None,
    }
}

} // verus!

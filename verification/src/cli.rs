//! The command-line options of the server.
use vstd::prelude::*;

use crate::config::{DEFAULT_HOST, DEFAULT_MODEL, DEFAULT_PORT};
use crate::credentials::default_credentials_path;

verus! {

/// The command-line options of the server.
#[derive(Debug, Clone, PartialEq, Eq)]
pub struct Cli {
    /// The address to listen on.
    pub host: String,
    /// The port to listen on.
    pub port: u16,
    /// The model name to serve.
    pub model: String,
    /// The API key that clients must present.
    pub api_key: Option<String>,
    /// Where the credentials are cached.
    pub credentials_path: String,
    /// Whether to serve the web UI.
    pub webui: bool,
    /// Whether to drop the cached credentials first.
    pub reset: bool,
}

impl Default for Cli {
    /// The options when none are given.
    fn default() -> (r: Self)
        ensures
            r.host@ == DEFAULT_HOST@,
            r.port == DEFAULT_PORT,
            r.model@ == DEFAULT_MODEL@,
            r.api_key is None,
            r.credentials_path@ == ".seedrelay/credentials.json"@,
            !r.webui,
            !r.reset,
    {
        Cli {
            host: DEFAULT_HOST.to_owned(),
            port: DEFAULT_PORT,
            model: DEFAULT_MODEL.to_owned(),
            api_key: None,
            credentials_path: default_credentials_path(),
            webui: false,
            reset: false,
        }
    }
}

} // verus!

//! What the server is started with.

use std::collections::HashSet;
use vstd::prelude::*;

use crate::protocol::ProtocolType;
use crate::server::tunnel::Config;

verus! {

/// What the server is started with.
pub struct Args {
    /// The port at which those who share files connect.
    pub listen: u16,
    /// Where the certificates are kept.
    pub cert_path: String,
    /// Where the key of the certificates is kept.
    pub key_path: String,
    /// The protocols that are supported.
    pub protocols: Vec<ProtocolType>,
}

impl Args {
    /// What the server is told to do: it asks nobody for a token.
    pub fn into_config(self) -> (config: Config)
        ensures
            config.domain@ == "todo.com"@,
            config.upstream_listen == self.listen,
            !config.require_auth,
            config.auth_tokens@.is_empty(),
            config.supported_protocols == self.protocols,
            config.cert_path == self.cert_path,
            config.key_path == self.key_path,
    {
        Config {
            domain: "todo.com".to_owned(),
            upstream_listen: self.listen,
            require_auth: false,
            auth_tokens: HashSet::new(),
            supported_protocols: self.protocols,
            cert_path: self.cert_path,
            key_path: self.key_path,
        }
    }
}

} // verus!

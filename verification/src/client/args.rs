//! What the client is started with.

use std::path::PathBuf;
use vstd::prelude::*;

use crate::client::file_server::FileServer;
use crate::client::tunnel::{token_view, Config, ConfigView};
use crate::protocol::ProtocolType;

verus! {

/// What the client is started with.
pub struct Args {
    /// Where the files are that are shared.
    pub share: PathBuf,
    /// The port at which the files are asked for on this machine.
    pub file_server_port: u16,
    /// The host of the public end of the tunnel.
    pub remote_host: String,
    /// The port of the public end of the tunnel.
    pub remote_port: u16,
    /// The protocols that are requested.
    pub protocols: Vec<ProtocolType>,
    /// The token by which the client shows who it is.
    pub auth_token: Option<String>,
}

impl Args {
    /// What the client is told to do, and the files that it shares.
    pub fn into_parts(self, version: u32) -> (parts: (Config, FileServer))
        ensures
            parts.0@ == (ConfigView {
                file_server_port: self.file_server_port,
                remote_host: self.remote_host@,
                remote_port: self.remote_port,
                supported_protocols: self.protocols@,
                supported_version: version,
                auth_token: token_view(self.auth_token),
            }),
            parts.1@ == (self.share, self.file_server_port),
    {
        let config = Config::new(
            self.file_server_port,
            self.remote_host,
            self.remote_port,
            self.protocols,
            version,
            self.auth_token,
        );
        (config, FileServer::new(self.share, self.file_server_port))
    }
}

} // verus!

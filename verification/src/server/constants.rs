//! What the server is set to.

use vstd::prelude::*;

verus! {

/// The number of bytes that are read for the head of a request.
pub const DEFAULT_BUF_SIZE: usize = 1024;

/// How many header fields the head of a request may have.
pub const MAX_HEADERS: usize = 64;

/// How often a free subdomain is sought.
pub const MAX_SUBDOMAIN_ATTEMPTS: usize = 10;

/// The address that the server listens at.
pub const DEFAULT_BIND_ADDR: &'static str = "0.0.0.0";

/// The port that browsers connect to.
pub const HTTPS_LISTEN_PORT: &'static str = "443";

} // verus!

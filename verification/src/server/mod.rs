//! The public end of the tunnel.

pub mod args;
pub mod constants;
pub mod session;
pub mod stream;
pub mod tls;
pub mod tunnel;
pub mod utils;

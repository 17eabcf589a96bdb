//! The end of the tunnel that shares files.

pub mod args;
pub mod file_server;
pub mod tunnel;
pub mod utils;

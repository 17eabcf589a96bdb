//! A reverse HTTP tunnel: the wire messages that the two ends exchange, and every decision that
//! either end takes on them.

pub mod body;
pub mod client;
pub mod headers;
pub mod number;
pub mod protocol;
pub mod registry;
pub mod relay;
pub mod server;
pub mod text;

//! The two ends of a call, seen from a client: the call it made (`client`)
//! and the call it serves (`server`).
pub mod client;
pub mod server;

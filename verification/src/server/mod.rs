//! The switchboard: it keeps track of which client offers which function and
//! routes calls, responses and cancellations between the clients.
pub mod api_table;
pub mod ipc_bridge;
pub mod plugin_core;
pub mod swiboe;
pub mod laws;

//! Swiboe: a layered RPC switchboard for an editor built from plugins.
//!
//! The verified library holds the protocol values, the length-prefixed
//! framing of the wire, the routing rules of the switchboard, the
//! bookkeeping of its connections and of the core plugins, the state of the
//! calls that a client makes and serves, the buffer, log and file-listing
//! plugins, and the logic that the front ends share.
pub mod text;
pub mod ids;
pub mod error;
pub mod c_api;
pub mod rpc;
pub mod ipc;
pub mod str_map;
pub mod spinner;
pub mod server;
pub mod plugin;
pub mod plugin_buffer;
pub mod gui;
pub mod client;

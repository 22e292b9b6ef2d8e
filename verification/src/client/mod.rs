//! The client side: the calls that a client makes, the calls that it serves,
//! and the loop that routes messages between them and the switchboard.
pub mod rpc;
pub mod rpc_loop;

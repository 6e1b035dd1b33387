//! Rendezvous and relay servers for NAT traversal: the verified core.
//!
//! The library holds the decisions of both servers as plain state machines over
//! plain values; sockets, timers and storage stay with the caller.

pub mod addr;
pub mod common;
pub mod control;
pub mod database;
pub mod frame;
pub mod identity;
pub mod lan;
pub mod lic;
pub mod peer;
pub mod relay;
pub mod rendezvous;
pub mod service;
pub mod strset;
pub mod table;
pub mod text;
pub mod throttle;

//! A real-time broadcast hub: a central chat server owning a registry of live
//! sessions, a per-connection session state machine with heartbeat liveness
//! checking, and the JSON wire codec that connects them.

pub mod chat_server;
pub mod codec;
pub mod websocket;

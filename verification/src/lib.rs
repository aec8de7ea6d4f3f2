//! A bidirectional TCP-over-QUIC tunnel library.
//!
//! The crate holds the verified core of the tunnel: the control-protocol
//! codec, the socket-address text model it carries, the agent
//! configurations, and the decision logic of the reverse-tunnel engine.
//! The surrounding network I/O (QUIC sessions, TCP listeners, signal
//! handling) lives outside the library and consumes these pieces.

pub mod addr;
pub mod common;
pub mod errors;
pub mod local;
pub mod remote;

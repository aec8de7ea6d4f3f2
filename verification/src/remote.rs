//! The remote agent: it listens for inbound QUIC sessions and bridges
//! each to a TCP endpoint.

pub mod config;
pub mod reverse;

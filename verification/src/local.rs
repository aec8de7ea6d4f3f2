//! The local agent: it runs where the user invokes the tunnel, opens the
//! QUIC session to the remote, and bridges it to local TCP.

pub mod config;
pub mod reverse;

//! Items shared by both tunnel agents: the tunnel kind and the default
//! per-direction copy buffer size.

use vstd::prelude::*;

pub mod proto;

verus! {

/// Number of bytes in each direction's copy buffer unless overridden.
pub const DEFAULT_BUFSIZE: usize = 1024 * 32;

/// The two tunnel directions an agent pair can run.
#[derive(PartialEq, Eq, Structural, Clone, Copy, Debug)]
pub enum TunnelType {
    /// Client-side ingress, remote egress.
    Forward,
    /// Remote-side ingress, client-side egress.
    Reverse,
}

} // verus!

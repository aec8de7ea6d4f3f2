//! Configuration of the remote agent.

use vstd::prelude::*;
use crate::addr::{IpAddress, SocketAddress};
use crate::common::{TunnelType, DEFAULT_BUFSIZE};

verus! {

/// What the remote agent needs to run: which tunnel to serve, the TCP
/// endpoint it forwards to (forward tunnels) or publishes (reverse
/// tunnels), the QUIC listen address, the TLS material as PEM text, and
/// the copy buffer size.
#[derive(Clone)]
pub struct RemoteConfig {
    pub tunnel_type: TunnelType,
    /// Only used for the forward tunnel.
    pub tcp_forward_address: Option<SocketAddress>,
    /// Only used for the reverse tunnel.
    pub tcp_reverse_address: Option<SocketAddress>,
    pub quic_address: SocketAddress,
    pub tls_cert: String,
    pub tls_key: String,
    pub buffer_size: usize,
}

impl RemoteConfig {
    /// The starting configuration for the given tunnel type: QUIC on
    /// `0.0.0.0:4433`; a reverse tunnel additionally publishes TCP on
    /// `0.0.0.0:5000`. The TLS material is left empty to be set later.
    pub fn new(tunnel_type: &TunnelType) -> (c: Self)
        ensures
            c.tunnel_type == *tunnel_type,
            c.tcp_forward_address is None,
            c.tcp_reverse_address == (match *tunnel_type {
                TunnelType::Forward => None::<SocketAddress>,
                TunnelType::Reverse => Some(
                    SocketAddress { ip: IpAddress::V4(0, 0, 0, 0), port: 5000 },
                ),
            }),
            c.quic_address == (SocketAddress { ip: IpAddress::V4(0, 0, 0, 0), port: 4433 }),
            c.tls_cert@ == Seq::<char>::empty(),
            c.tls_key@ == Seq::<char>::empty(),
            c.buffer_size == DEFAULT_BUFSIZE,
    {
        match tunnel_type {
            TunnelType::Forward => RemoteConfig {
                tunnel_type: TunnelType::Forward,
                tcp_forward_address: None,
                tcp_reverse_address: None,
                quic_address: SocketAddress { ip: IpAddress::V4(0, 0, 0, 0), port: 4433 },
                tls_cert: String::new(),
                tls_key: String::new(),
                buffer_size: DEFAULT_BUFSIZE,
            },
            TunnelType::Reverse => RemoteConfig {
                tunnel_type: TunnelType::Reverse,
                tcp_forward_address: None,
                tcp_reverse_address: Some(
                    SocketAddress { ip: IpAddress::V4(0, 0, 0, 0), port: 5000 },
                ),
                quic_address: SocketAddress { ip: IpAddress::V4(0, 0, 0, 0), port: 4433 },
                tls_cert: String::new(),
                tls_key: String::new(),
                buffer_size: DEFAULT_BUFSIZE,
            },
        }
    }

    /// The configuration the command line asks for: built from
    /// [`RemoteConfig::new`], with the given addresses, TLS material and
    /// buffer size applied over it. The forward TCP address only applies
    /// to a forward tunnel and the reverse one only to a reverse tunnel.
    pub fn from_options(
        tunnel_type: TunnelType,
        forward_addr: Option<SocketAddress>,
        reverse_addr: Option<SocketAddress>,
        quic_addr: Option<SocketAddress>,
        tls_cert: String,
        tls_key: String,
        buffer_size: Option<usize>,
    ) -> (c: RemoteConfig)
        ensures
            c.tunnel_type == tunnel_type,
            c.tcp_forward_address == (match (tunnel_type, forward_addr) {
                (TunnelType::Forward, Some(a)) => Some(a),
                _ => None::<SocketAddress>,
            }),
            c.tcp_reverse_address == (match tunnel_type {
                TunnelType::Forward => None::<SocketAddress>,
                TunnelType::Reverse => Some(
                    match reverse_addr {
                        Some(a) => a,
                        None => SocketAddress { ip: IpAddress::V4(0, 0, 0, 0), port: 5000 },
                    },
                ),
            }),
            c.quic_address == (match quic_addr {
                Some(a) => a,
                None => SocketAddress { ip: IpAddress::V4(0, 0, 0, 0), port: 4433 },
            }),
            c.tls_cert == tls_cert,
            c.tls_key == tls_key,
            c.buffer_size == (match buffer_size {
                Some(b) => b,
                None => DEFAULT_BUFSIZE,
            }),
    {
        let mut c = RemoteConfig::new(&tunnel_type);
        match (&c.tunnel_type, reverse_addr) {
            (TunnelType::Reverse, Some(a)) => {
                c.tcp_reverse_address = Some(a);
            },
            _ => {},
        }
        match (&c.tunnel_type, forward_addr) {
            (TunnelType::Forward, Some(a)) => {
                c.tcp_forward_address = Some(a);
            },
            _ => {},
        }
        match quic_addr {
            Some(a) => {
                c.quic_address = a;
            },
            None => {},
        }
        c.tls_cert = tls_cert;
        c.tls_key = tls_key;
        match buffer_size {
            Some(b) => {
                c.buffer_size = b;
            },
            None => {},
        }
        c
    }
}

} // verus!

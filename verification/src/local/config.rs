//! Configuration of the local agent.

use vstd::prelude::*;
use crate::addr::{IpAddress, SocketAddress};
use crate::common::{TunnelType, DEFAULT_BUFSIZE};

verus! {

/// What the local agent needs to run: which tunnel to form, where to
/// serve or reach TCP locally, where the remote QUIC server is, the PEM
/// certificate text it trusts, and the copy buffer size.
pub struct LocalConfig {
    pub tunnel_type: TunnelType,
    pub local_tcp_server_addr: SocketAddress,
    pub remote_quic_server_addr: SocketAddress,
    pub tls_cert: String,
    pub buffer_size: usize,
}

impl Default for LocalConfig {
    /// A forward tunnel serving `127.0.0.1:8080`; the remote address and
    /// the certificate are placeholders to be set before use.
    fn default() -> (c: Self)
        ensures
            c.tunnel_type == TunnelType::Forward,
            c.local_tcp_server_addr == (SocketAddress {
                ip: IpAddress::V4(127, 0, 0, 1),
                port: 8080,
            }),
            c.remote_quic_server_addr == (SocketAddress {
                ip: IpAddress::V4(0, 0, 0, 0),
                port: 0,
            }),
            c.tls_cert@ == Seq::<char>::empty(),
            c.buffer_size == DEFAULT_BUFSIZE,
    {
        LocalConfig {
            tunnel_type: TunnelType::Forward,
            local_tcp_server_addr: SocketAddress { ip: IpAddress::V4(127, 0, 0, 1), port: 8080 },
            remote_quic_server_addr: SocketAddress { ip: IpAddress::V4(0, 0, 0, 0), port: 0 },
            tls_cert: String::new(),
            buffer_size: DEFAULT_BUFSIZE,
        }
    }
}

impl LocalConfig {
    /// The configuration the command line asks for: a given address or
    /// buffer size overrides the default, the certificate text and the
    /// tunnel type are taken as given.
    pub fn from_options(
        tunnel_type: TunnelType,
        local_addr: Option<SocketAddress>,
        remote_addr: Option<SocketAddress>,
        tls_cert: String,
        buffer_size: Option<usize>,
    ) -> (c: LocalConfig)
        ensures
            c.tunnel_type == tunnel_type,
            c.local_tcp_server_addr == (match local_addr {
                Some(a) => a,
                None => SocketAddress { ip: IpAddress::V4(127, 0, 0, 1), port: 8080 },
            }),
            c.remote_quic_server_addr == (match remote_addr {
                Some(a) => a,
                None => SocketAddress { ip: IpAddress::V4(0, 0, 0, 0), port: 0 },
            }),
            c.tls_cert == tls_cert,
            c.buffer_size == (match buffer_size {
                Some(b) => b,
                None => DEFAULT_BUFSIZE,
            }),
    {
        let mut c = LocalConfig::default();
        match local_addr {
            Some(a) => {
                c.local_tcp_server_addr = a;
            },
            None => {},
        }
        match remote_addr {
            Some(a) => {
                c.remote_quic_server_addr = a;
            },
            None => {},
        }
        c.tls_cert = tls_cert;
        match buffer_size {
            Some(b) => {
                c.buffer_size = b;
            },
            None => {},
        }
        c.tunnel_type = tunnel_type;
        c
    }
}

} // verus!

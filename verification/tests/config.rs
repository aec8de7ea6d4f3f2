use sirang::addr::{IpAddress, SocketAddress};
use sirang::common::{TunnelType, DEFAULT_BUFSIZE};
use sirang::errors::GenericError;
use sirang::local::config::LocalConfig;
use sirang::remote::config::RemoteConfig;

fn v4(a: u8, b: u8, c: u8, d: u8, port: u16) -> SocketAddress {
    SocketAddress { ip: IpAddress::V4(a, b, c, d), port }
}

#[test]
fn local_default_serves_loopback_forward() {
    let c = LocalConfig::default();
    assert_eq!(c.tunnel_type, TunnelType::Forward);
    assert_eq!(c.local_tcp_server_addr, v4(127, 0, 0, 1, 8080));
    assert_eq!(c.remote_quic_server_addr, v4(0, 0, 0, 0, 0));
    assert_eq!(c.tls_cert, String::new());
    assert_eq!(c.buffer_size, DEFAULT_BUFSIZE);
    assert_eq!(DEFAULT_BUFSIZE, 32 * 1024);
}

#[test]
fn local_from_options_applies_overrides() {
    let c = LocalConfig::from_options(
        TunnelType::Reverse,
        Some(v4(127, 0, 0, 1, 9000)),
        Some(v4(203, 0, 113, 9, 4433)),
        String::from("CERT"),
        Some(1024),
    );
    assert_eq!(c.tunnel_type, TunnelType::Reverse);
    assert_eq!(c.local_tcp_server_addr, v4(127, 0, 0, 1, 9000));
    assert_eq!(c.remote_quic_server_addr, v4(203, 0, 113, 9, 4433));
    assert_eq!(c.tls_cert, "CERT");
    assert_eq!(c.buffer_size, 1024);
}

#[test]
fn local_from_options_keeps_defaults() {
    let c = LocalConfig::from_options(
        TunnelType::Forward,
        None,
        None,
        String::from("CERT"),
        None,
    );
    assert_eq!(c.local_tcp_server_addr, v4(127, 0, 0, 1, 8080));
    assert_eq!(c.remote_quic_server_addr, v4(0, 0, 0, 0, 0));
    assert_eq!(c.buffer_size, DEFAULT_BUFSIZE);
}

#[test]
fn remote_new_forward_has_no_tcp_endpoints() {
    let c = RemoteConfig::new(&TunnelType::Forward);
    assert_eq!(c.tunnel_type, TunnelType::Forward);
    assert_eq!(c.tcp_forward_address, None);
    assert_eq!(c.tcp_reverse_address, None);
    assert_eq!(c.quic_address, v4(0, 0, 0, 0, 4433));
    assert_eq!(c.tls_cert, String::new());
    assert_eq!(c.tls_key, String::new());
    assert_eq!(c.buffer_size, DEFAULT_BUFSIZE);
}

#[test]
fn remote_new_reverse_publishes_default_tcp() {
    let c = RemoteConfig::new(&TunnelType::Reverse);
    assert_eq!(c.tunnel_type, TunnelType::Reverse);
    assert_eq!(c.tcp_forward_address, None);
    assert_eq!(c.tcp_reverse_address, Some(v4(0, 0, 0, 0, 5000)));
    assert_eq!(c.quic_address, v4(0, 0, 0, 0, 4433));
}

#[test]
fn remote_from_options_forward() {
    let c = RemoteConfig::from_options(
        TunnelType::Forward,
        Some(v4(10, 0, 0, 2, 7000)),
        Some(v4(10, 0, 0, 3, 7001)),
        Some(v4(0, 0, 0, 0, 4500)),
        String::from("CERT"),
        String::from("KEY"),
        Some(2048),
    );
    assert_eq!(c.tcp_forward_address, Some(v4(10, 0, 0, 2, 7000)));
    // The reverse endpoint does not apply to a forward tunnel.
    assert_eq!(c.tcp_reverse_address, None);
    assert_eq!(c.quic_address, v4(0, 0, 0, 0, 4500));
    assert_eq!(c.tls_cert, "CERT");
    assert_eq!(c.tls_key, "KEY");
    assert_eq!(c.buffer_size, 2048);
}

#[test]
fn remote_from_options_reverse() {
    let c = RemoteConfig::from_options(
        TunnelType::Reverse,
        Some(v4(10, 0, 0, 2, 7000)),
        Some(v4(0, 0, 0, 0, 5555)),
        None,
        String::from("CERT"),
        String::from("KEY"),
        None,
    );
    // The forward endpoint does not apply to a reverse tunnel.
    assert_eq!(c.tcp_forward_address, None);
    assert_eq!(c.tcp_reverse_address, Some(v4(0, 0, 0, 0, 5555)));
    assert_eq!(c.quic_address, v4(0, 0, 0, 0, 4433));
    assert_eq!(c.buffer_size, DEFAULT_BUFSIZE);
}

#[test]
fn generic_error_keeps_its_message() {
    let e = GenericError(String::from("something went wrong"));
    assert_eq!(e.message(), "something went wrong");
}

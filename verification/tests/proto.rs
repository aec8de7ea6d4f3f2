use bytes::Bytes;
use sirang::addr::{IpAddress, SocketAddress};
use sirang::common::proto::ProtoCommand;

fn v4(a: u8, b: u8, c: u8, d: u8, port: u16) -> SocketAddress {
    SocketAddress { ip: IpAddress::V4(a, b, c, d), port }
}

#[test]
fn test_serialize() {
    assert_eq!(
        ProtoCommand::serialize(Bytes::from_static(b"CLOSED")).unwrap(),
        ProtoCommand::CLOSED
    );

    assert_eq!(
        ProtoCommand::serialize(Bytes::from_static(b"ACK")).unwrap(),
        ProtoCommand::ACK
    );

    assert_eq!(
        ProtoCommand::serialize(Bytes::from_static(b"CONNECTED 127.0.0.1:5050")).unwrap(),
        ProtoCommand::CONNECTED(v4(127, 0, 0, 1, 5050))
    );
}

#[test]
fn test_deserialize() {
    let closed_cmd = ProtoCommand::CLOSED;
    let ack_cmd = ProtoCommand::ACK;
    let connected_cmd = ProtoCommand::CONNECTED(v4(127, 0, 0, 1, 5050));

    assert_eq!(closed_cmd.deserialize(), Bytes::from_static(b"CLOSED"));
    assert_eq!(ack_cmd.deserialize(), Bytes::from_static(b"ACK"));
    assert_eq!(
        connected_cmd.deserialize(),
        Bytes::from_static(b"CONNECTED 127.0.0.1:5050")
    );
}

#[test]
fn round_trip_all_commands() {
    let cases = vec![
        ProtoCommand::CLOSED,
        ProtoCommand::ACK,
        ProtoCommand::CONNECTED(v4(0, 0, 0, 0, 0)),
        ProtoCommand::CONNECTED(v4(255, 255, 255, 255, 65535)),
        ProtoCommand::CONNECTED(v4(10, 20, 30, 40, 4433)),
        ProtoCommand::CONNECTED(SocketAddress {
            ip: IpAddress::V6(0, 0, 0, 0, 0, 0, 0, 1),
            port: 8080,
        }),
        ProtoCommand::CONNECTED(SocketAddress {
            ip: IpAddress::V6(0xdb8, 0xffff, 0, 1, 0xabc, 0xdef, 10, 65535),
            port: 443,
        }),
    ];
    for cmd in cases {
        assert_eq!(ProtoCommand::serialize(cmd.deserialize()), Some(cmd));
    }
}

#[test]
fn round_trip_via_wire_vectors() {
    let cmd = ProtoCommand::CONNECTED(v4(192, 168, 1, 7, 65000));
    let wire = cmd.to_wire();
    assert_eq!(ProtoCommand::from_wire(&wire), Some(cmd));
}

#[test]
fn parse_rejects_unknown_tokens() {
    let bad: Vec<&[u8]> = vec![
        b"",
        b"FOO",
        b"closed",
        b"ACKS",
        b"CLOSEDX",
        b"CONNECT",
        b"CONNECTEDD 1.2.3.4:80",
        b" CLOSED",
    ];
    for frame in bad {
        assert_eq!(
            ProtoCommand::serialize(Bytes::copy_from_slice(frame)),
            None,
            "frame {:?} must not parse",
            frame
        );
    }
}

#[test]
fn parse_rejects_bad_connected_frames() {
    let bad: Vec<&[u8]> = vec![
        b"CONNECTED",
        b"CONNECTED ",
        b"CONNECTED notanaddr",
        b"CONNECTED 1.2.3.4",
        b"CONNECTED 1.2.3:80",
        b"CONNECTED 1.2.3.4.5:80",
        b"CONNECTED 300.0.0.1:80",
        b"CONNECTED 1.2.3.4:99999",
        b"CONNECTED 1.2.3.4:80 junk",
        b"CONNECTED [0:0:0:0:0:0:1]:80",
    ];
    for frame in bad {
        assert_eq!(
            ProtoCommand::serialize(Bytes::copy_from_slice(frame)),
            None,
            "frame {:?} must not parse",
            frame
        );
    }
}

#[test]
fn parse_matches_on_leading_token() {
    // The token before the first space decides; CLOSED and ACK take no
    // address, so what follows a space is not inspected.
    assert_eq!(
        ProtoCommand::serialize(Bytes::from_static(b"CLOSED tail")),
        Some(ProtoCommand::CLOSED)
    );
    assert_eq!(
        ProtoCommand::serialize(Bytes::from_static(b"ACK tail")),
        Some(ProtoCommand::ACK)
    );
}

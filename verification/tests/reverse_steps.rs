use bytes::Bytes;
use sirang::addr::{IpAddress, SocketAddress};
use sirang::local::reverse::{
    command_stream_action, data_loop_directive, perform_handshake, serialize_handshake_command,
    DataLoopDirective, DataLoopEvent, LocalControlAction,
};
use sirang::common::proto::ProtoCommand;
use sirang::remote::reverse::{
    command_receiver_action, session_loop_directive, tcp_loop_directive, CloseAction,
    RemoteControlAction, SessionLoopDirective, SessionLoopEvent, TcpLoopDirective, TcpLoopEvent,
};

#[test]
fn handshake_accepts_connected_and_returns_address() {
    let announced = SocketAddress {
        ip: IpAddress::V4(198, 51, 100, 4),
        port: 5000,
    };
    let frame = ProtoCommand::CONNECTED(announced).deserialize();
    assert_eq!(perform_handshake(frame).unwrap(), announced);
}

#[test]
fn handshake_rejects_other_commands() {
    let r = perform_handshake(ProtoCommand::CLOSED.deserialize());
    assert_eq!(
        r.unwrap_err().message(),
        "Invalid command from remote instance"
    );
    let r = perform_handshake(ProtoCommand::ACK.deserialize());
    assert_eq!(
        r.unwrap_err().message(),
        "Invalid command from remote instance"
    );
}

#[test]
fn handshake_rejects_undecodable_frames() {
    let r = perform_handshake(Bytes::from_static(b"HELLO"));
    assert_eq!(
        r.unwrap_err().message(),
        "Unable to deserialize handshake data"
    );
}

#[test]
fn handshake_command_reader_parses_frames() {
    assert_eq!(
        serialize_handshake_command(Bytes::from_static(b"ACK")).unwrap(),
        ProtoCommand::ACK
    );
    assert!(serialize_handshake_command(Bytes::from_static(b"nonsense")).is_err());
}

#[test]
fn local_handler_closes_on_closed_or_ack() {
    assert_eq!(
        command_stream_action(ProtoCommand::CLOSED.deserialize()),
        LocalControlAction::SignalClose
    );
    assert_eq!(
        command_stream_action(ProtoCommand::ACK.deserialize()),
        LocalControlAction::SignalClose
    );
    let connected = ProtoCommand::CONNECTED(SocketAddress {
        ip: IpAddress::V4(127, 0, 0, 1),
        port: 5050,
    });
    assert_eq!(
        command_stream_action(connected.deserialize()),
        LocalControlAction::Ignore
    );
    assert_eq!(
        command_stream_action(Bytes::from_static(b"garbage")),
        LocalControlAction::Ignore
    );
}

#[test]
fn remote_handler_acks_only_closed() {
    assert_eq!(
        command_receiver_action(ProtoCommand::CLOSED.deserialize()),
        RemoteControlAction::AckAndCloseStream
    );
    assert_eq!(
        command_receiver_action(ProtoCommand::ACK.deserialize()),
        RemoteControlAction::Ignore
    );
    assert_eq!(
        command_receiver_action(Bytes::from_static(b"garbage")),
        RemoteControlAction::Ignore
    );
}

#[test]
fn session_loop_serves_only_new_sessions() {
    assert_eq!(
        session_loop_directive(SessionLoopEvent::SessionAccepted),
        SessionLoopDirective::HandleSession
    );
    assert_eq!(
        session_loop_directive(SessionLoopEvent::Notice(CloseAction::CloseProcess)),
        SessionLoopDirective::Stop
    );
    assert_eq!(
        session_loop_directive(SessionLoopEvent::Notice(CloseAction::CloseStream)),
        SessionLoopDirective::Stop
    );
    assert_eq!(
        session_loop_directive(SessionLoopEvent::GlobalShutdown),
        SessionLoopDirective::Stop
    );
}

#[test]
fn tcp_loop_follows_the_close_protocol() {
    assert_eq!(
        tcp_loop_directive(TcpLoopEvent::Accepted),
        TcpLoopDirective::OpenDataStream
    );
    // A failed stream open means the session has gone: back to the
    // session loop, not out of the process.
    assert_eq!(
        tcp_loop_directive(TcpLoopEvent::OpenFailed),
        TcpLoopDirective::NextSession
    );
    assert_eq!(
        tcp_loop_directive(TcpLoopEvent::Notice(CloseAction::CloseProcess)),
        TcpLoopDirective::ExitProcess
    );
    assert_eq!(
        tcp_loop_directive(TcpLoopEvent::Notice(CloseAction::CloseStream)),
        TcpLoopDirective::NextSession
    );
    assert_eq!(
        tcp_loop_directive(TcpLoopEvent::GlobalShutdown),
        TcpLoopDirective::ExitProcess
    );
}

#[test]
fn data_loop_copies_only_on_new_streams() {
    assert_eq!(
        data_loop_directive(DataLoopEvent::StreamOpened),
        DataLoopDirective::StartCopy
    );
    assert_eq!(
        data_loop_directive(DataLoopEvent::SessionEnded),
        DataLoopDirective::Stop
    );
    assert_eq!(
        data_loop_directive(DataLoopEvent::CloseSignalled),
        DataLoopDirective::Stop
    );
}

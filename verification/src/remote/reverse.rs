//! Decision logic of the reverse tunnel's remote half.
//!
//! The remote accepts one reverse client at a time: it takes the first
//! stream of a new session as the control stream, announces the public
//! TCP address on it, and then races TCP accepts against close notices.
//! The surrounding program performs the network work and feeds received
//! frames and loop events through these functions.

use vstd::prelude::*;
use crate::common::proto::{ProtoCommand, spec_parse, bytes_content};

verus! {

/// A close notice passed between the reverse-remote loops.
#[derive(PartialEq, Eq, Structural, Clone, Copy, Debug)]
pub enum CloseAction {
    /// The whole process winds down.
    CloseProcess,
    /// Only the current public listener winds down; the session loop
    /// accepts the next reverse client.
    CloseStream,
}

/// What the control-stream handler does with one received frame.
#[derive(PartialEq, Eq, Structural, Clone, Copy, Debug)]
pub enum RemoteControlAction {
    /// Reply `ACK`, pass `CloseStream` to the TCP accept loop, and leave
    /// the handler.
    AckAndCloseStream,
    /// Keep reading frames.
    Ignore,
}

/// What the session-accept loop saw in its race.
#[derive(PartialEq, Eq, Structural, Clone, Copy, Debug)]
pub enum SessionLoopEvent {
    /// A new QUIC session arrived.
    SessionAccepted,
    /// A close notice arrived on the session channel.
    Notice(CloseAction),
    /// The global shutdown fired.
    GlobalShutdown,
}

/// What the session-accept loop does next.
#[derive(PartialEq, Eq, Structural, Clone, Copy, Debug)]
pub enum SessionLoopDirective {
    /// Take the session's first stream as the control stream and serve it.
    HandleSession,
    /// Return successfully; the agent winds down.
    Stop,
}

/// What the TCP accept loop saw in its race, or what became of the
/// stream open that an accepted connection asks for.
#[derive(PartialEq, Eq, Structural, Clone, Copy, Debug)]
pub enum TcpLoopEvent {
    /// The public listener accepted a TCP connection.
    Accepted,
    /// Opening the data stream toward the peer failed: the session has
    /// gone.
    OpenFailed,
    /// A close notice arrived on the TCP-wait channel.
    Notice(CloseAction),
    /// The global shutdown fired.
    GlobalShutdown,
}

/// What the TCP accept loop does next.
#[derive(PartialEq, Eq, Structural, Clone, Copy, Debug)]
pub enum TcpLoopDirective {
    /// Open a fresh data stream toward the peer and start a copy task.
    OpenDataStream,
    /// Return successfully; the whole process winds down.
    ExitProcess,
    /// Leave the loop so the session loop can accept the next client.
    NextSession,
}

/// Decides the control-stream handler's reaction to one frame: only
/// `CLOSED` draws a reply. `ACK` is sent if and only if the frame read
/// `CLOSED`, never unsolicited; any other or undecodable frame is
/// ignored.
pub fn command_receiver_action(data: bytes::Bytes) -> (a: RemoteControlAction)
    ensures
        a == RemoteControlAction::AckAndCloseStream <==> spec_parse(bytes_content(data)) == Some(
            ProtoCommand::CLOSED,
        ),
{
    match ProtoCommand::serialize(data) {
        Some(ProtoCommand::CLOSED) => RemoteControlAction::AckAndCloseStream,
        _ => RemoteControlAction::Ignore,
    }
}

/// Decides one round of the session-accept loop: only a new session is
/// served; a close notice or the global shutdown stops the agent.
pub fn session_loop_directive(e: SessionLoopEvent) -> (d: SessionLoopDirective)
    ensures
        d == SessionLoopDirective::HandleSession <==> e == SessionLoopEvent::SessionAccepted,
{
    match e {
        SessionLoopEvent::SessionAccepted => SessionLoopDirective::HandleSession,
        SessionLoopEvent::Notice(_) => SessionLoopDirective::Stop,
        SessionLoopEvent::GlobalShutdown => SessionLoopDirective::Stop,
    }
}

/// Decides one round of the TCP accept loop: an accepted connection gets
/// a data stream toward the peer; a failed stream open means the session
/// has gone, so control goes back to the session loop; `CloseProcess`
/// and the global shutdown end the process; `CloseStream` hands control
/// back to the session loop.
pub fn tcp_loop_directive(e: TcpLoopEvent) -> (d: TcpLoopDirective)
    ensures
        d == (match e {
            TcpLoopEvent::Accepted => TcpLoopDirective::OpenDataStream,
            TcpLoopEvent::OpenFailed => TcpLoopDirective::NextSession,
            TcpLoopEvent::Notice(CloseAction::CloseProcess) => TcpLoopDirective::ExitProcess,
            TcpLoopEvent::Notice(CloseAction::CloseStream) => TcpLoopDirective::NextSession,
            TcpLoopEvent::GlobalShutdown => TcpLoopDirective::ExitProcess,
        }),
{
    match e {
        TcpLoopEvent::Accepted => TcpLoopDirective::OpenDataStream,
        TcpLoopEvent::OpenFailed => TcpLoopDirective::NextSession,
        TcpLoopEvent::Notice(CloseAction::CloseProcess) => TcpLoopDirective::ExitProcess,
        TcpLoopEvent::Notice(CloseAction::CloseStream) => TcpLoopDirective::NextSession,
        TcpLoopEvent::GlobalShutdown => TcpLoopDirective::ExitProcess,
    }
}

} // verus!

//! Decision logic of the reverse tunnel's local half.
//!
//! The local agent opens the control stream, expects `CONNECTED` as the
//! very first frame, then accepts data streams until the session ends or
//! the control-stream handler signals close. The surrounding program
//! performs the QUIC and TCP work and feeds the received frames and loop
//! events through these functions.

use vstd::prelude::*;
use vstd::string::StringExecFns;
use crate::addr::SocketAddress;
use crate::common::proto::{ProtoCommand, spec_parse, bytes_content};
use crate::errors::GenericError;

verus! {

/// What the control-stream handler does with one received frame.
#[derive(PartialEq, Eq, Structural, Clone, Copy, Debug)]
pub enum LocalControlAction {
    /// Signal the close channel once and leave the handler.
    SignalClose,
    /// Keep reading frames.
    Ignore,
}

/// What the data-accept loop saw in its race.
#[derive(PartialEq, Eq, Structural, Clone, Copy, Debug)]
pub enum DataLoopEvent {
    /// The remote opened a data stream.
    StreamOpened,
    /// The session ended; no more streams will arrive.
    SessionEnded,
    /// The control-stream handler signalled close.
    CloseSignalled,
}

/// What the data-accept loop does next.
#[derive(PartialEq, Eq, Structural, Clone, Copy, Debug)]
pub enum DataLoopDirective {
    /// Connect TCP to the local service and start a copy task.
    StartCopy,
    /// Leave the loop; the agent winds down.
    Stop,
}

/// Reads the handshake frame as a command, or reports it undecodable.
pub fn serialize_handshake_command(data: bytes::Bytes) -> (r: Result<ProtoCommand, GenericError>)
    ensures
        match spec_parse(bytes_content(data)) {
            Some(cmd) => r == Ok::<ProtoCommand, GenericError>(cmd),
            None => match r {
                Ok(_) => false,
                Err(e) => e.0@ == "Unable to deserialize handshake data"@,
            },
        },
{
    match ProtoCommand::serialize(data) {
        Some(cmd) => Ok(cmd),
        None => Err(GenericError(String::from_str("Unable to deserialize handshake data"))),
    }
}

/// Checks the first frame of a reverse session: it must read as
/// `CONNECTED` carrying the remote's public TCP address, which is handed
/// back whole for the user-facing announcement. Any other frame is a
/// fatal startup error.
pub fn perform_handshake(data: bytes::Bytes) -> (r: Result<SocketAddress, GenericError>)
    ensures
        match spec_parse(bytes_content(data)) {
            Some(ProtoCommand::CONNECTED(sa)) => r == Ok::<SocketAddress, GenericError>(sa),
            Some(ProtoCommand::CLOSED) | Some(ProtoCommand::ACK) => match r {
                Ok(_) => false,
                Err(e) => e.0@ == "Invalid command from remote instance"@,
            },
            None => match r {
                Ok(_) => false,
                Err(e) => e.0@ == "Unable to deserialize handshake data"@,
            },
        },
{
    match serialize_handshake_command(data) {
        Ok(cmd) => match cmd {
            ProtoCommand::CONNECTED(sa) => Ok(sa),
            _ => Err(GenericError(String::from_str("Invalid command from remote instance"))),
        },
        Err(e) => Err(e),
    }
}

/// Decides the control-stream handler's reaction to one frame: `CLOSED`
/// (the remote closed first) and `ACK` (our `CLOSED` was acknowledged)
/// both signal the close channel; any other or undecodable frame is
/// ignored.
pub fn command_stream_action(data: bytes::Bytes) -> (a: LocalControlAction)
    ensures
        a == LocalControlAction::SignalClose <==> (spec_parse(bytes_content(data)) == Some(
            ProtoCommand::CLOSED,
        ) || spec_parse(bytes_content(data)) == Some(ProtoCommand::ACK)),
{
    match ProtoCommand::serialize(data) {
        Some(ProtoCommand::CLOSED) => LocalControlAction::SignalClose,
        Some(ProtoCommand::ACK) => LocalControlAction::SignalClose,
        _ => LocalControlAction::Ignore,
    }
}

/// Decides one round of the data-accept loop: only a freshly opened
/// stream starts a copy; the session ending or a close signal stops the
/// loop.
pub fn data_loop_directive(e: DataLoopEvent) -> (d: DataLoopDirective)
    ensures
        d == DataLoopDirective::StartCopy <==> e == DataLoopEvent::StreamOpened,
{
    match e {
        DataLoopEvent::StreamOpened => DataLoopDirective::StartCopy,
        DataLoopEvent::SessionEnded => DataLoopDirective::Stop,
        DataLoopEvent::CloseSignalled => DataLoopDirective::Stop,
    }
}

} // verus!

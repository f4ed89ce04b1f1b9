//! The decisions of a command session with a controller: checking the reply
//! to the greeting, sorting the frames that the controller pushes, decoding
//! command replies, and whether a connection survives a failed command.
use vstd::prelude::*;
use crate::frame::{MSG_STATUS, MSG_CMD_RESP, MSG_PREVIEW_FRAME};
use crate::status::{DeviceStatus, StatusError, status_of, status_error_text, parse_status};
use crate::text::{utf8_lossy, lossy_text, hex_byte, format_hex_byte};

verus! {

/// What the reader of a session does with a frame from the controller.
pub enum ReaderEvent {
    /// Publish the decoded status.
    Status(DeviceStatus),
    /// Hand the reply (success flag, text) to the command waiting for it.
    CommandReply(bool, String),
    /// Publish the framebuffer preview bytes.
    Preview(Vec<u8>),
    /// Drop the frame: an unknown type, or a status that does not decode.
    Ignored,
}

/// The success flag of a command reply: its first byte is nonzero.
pub open spec fn reply_success(p: Seq<u8>) -> bool {
    p.len() > 0 && p[0] != 0
}

/// The text of a command reply: the bytes after the flag, decoded lossily.
pub open spec fn reply_text(p: Seq<u8>) -> Seq<char> {
    if p.len() > 1 {
        utf8_lossy(p.skip(1))
    } else {
        Seq::<char>::empty()
    }
}

/// Decodes the payload of a command reply into its success flag and text.
pub fn parse_command_reply(payload: &[u8]) -> (out: (bool, String))
    ensures
        out.0 == reply_success(payload@),
        out.1@ == reply_text(payload@),
{
    let success = payload.len() > 0 && payload[0] != 0;
    let text = if payload.len() > 1 {
        let rest = vstd::slice::slice_subrange(payload, 1, payload.len());
        assert(rest@ =~= payload@.skip(1));
        lossy_text(rest)
    } else {
        String::new()
    };
    (success, text)
}

/// Sorts a frame pushed by the controller.
pub fn classify_frame(msg_type: u8, payload: Vec<u8>) -> (out: ReaderEvent)
    ensures
        msg_type == MSG_STATUS ==> match status_of(payload@) {
            Ok(m) => (out matches ReaderEvent::Status(s) && s@ == m),
            Err(_) => out is Ignored,
        },
        msg_type == MSG_CMD_RESP ==> (out matches ReaderEvent::CommandReply(ok, text) && ok
            == reply_success(payload@) && text@ == reply_text(payload@)),
        msg_type == MSG_PREVIEW_FRAME ==> (out matches ReaderEvent::Preview(bytes) && bytes@
            == payload@),
        msg_type != MSG_STATUS && msg_type != MSG_CMD_RESP && msg_type != MSG_PREVIEW_FRAME
            ==> out is Ignored,
{
    if msg_type == MSG_STATUS {
        match parse_status(payload.as_slice()) {
            Ok(s) => ReaderEvent::Status(s),
            Err(_) => ReaderEvent::Ignored,
        }
    } else if msg_type == MSG_CMD_RESP {
        let (ok, text) = parse_command_reply(payload.as_slice());
        ReaderEvent::CommandReply(ok, text)
    } else if msg_type == MSG_PREVIEW_FRAME {
        ReaderEvent::Preview(payload)
    } else {
        ReaderEvent::Ignored
    }
}

/// Why the greeting exchange failed.
#[derive(Debug, Clone, Copy, PartialEq, Eq, Structural)]
pub enum HandshakeError {
    /// The controller answered with a frame of this type instead of STATUS.
    UnexpectedReply(u8),
    /// The STATUS answer did not decode.
    Status(StatusError),
}

/// The text that each [`HandshakeError`] is reported with.
pub open spec fn handshake_error_text(e: HandshakeError) -> Seq<char> {
    match e {
        HandshakeError::UnexpectedReply(t) => "Expected STATUS (0x81), got 0x"@ + hex_byte(t),
        HandshakeError::Status(s) => status_error_text(s),
    }
}

impl HandshakeError {
    /// The message that reports this error.
    pub fn message(&self) -> (out: String)
        ensures
            out@ == handshake_error_text(*self),
    {
        match self {
            HandshakeError::UnexpectedReply(t) => {
                let mut s = String::from_str("Expected STATUS (0x81), got 0x");
                let hex = format_hex_byte(*t);
                s.append(hex.as_str());
                s
            },
            HandshakeError::Status(e) => e.message(),
        }
    }
}

/// Checks the controller's answer to the greeting: it must be a STATUS frame
/// that decodes.
pub fn check_handshake(msg_type: u8, payload: &[u8]) -> (out: Result<DeviceStatus, HandshakeError>)
    ensures
        msg_type != MSG_STATUS ==> out == Err::<DeviceStatus, HandshakeError>(
            HandshakeError::UnexpectedReply(msg_type),
        ),
        msg_type == MSG_STATUS ==> match status_of(payload@) {
            Ok(m) => (out matches Ok(s) && s@ == m),
            Err(e) => out == Err::<DeviceStatus, HandshakeError>(HandshakeError::Status(e)),
        },
{
    if msg_type != MSG_STATUS {
        return Err(HandshakeError::UnexpectedReply(msg_type));
    }
    match parse_status(payload) {
        Ok(s) => Ok(s),
        Err(e) => Err(HandshakeError::Status(e)),
    }
}

/// Why a text command failed.
#[derive(Debug)]
pub enum CommandError {
    /// No session is open.
    NotConnected,
    /// The session's reader has stopped: the connection is gone.
    ReaderGone,
    /// Writing the frame header failed, with the transport's explanation.
    SendHeaderFailed(String),
    /// Writing the frame payload failed, with the transport's explanation.
    SendPayloadFailed(String),
    /// No reply came in time.
    ResponseTimeout,
}

/// The text that each [`CommandError`] is reported with.
pub open spec fn command_error_text(e: CommandError) -> Seq<char> {
    match e {
        CommandError::NotConnected => "Not connected"@,
        CommandError::ReaderGone => "Reader task gone (disconnected)"@,
        CommandError::SendHeaderFailed(d) => "Send header failed: "@ + d@,
        CommandError::SendPayloadFailed(d) => "Send payload failed: "@ + d@,
        CommandError::ResponseTimeout => "Response timeout"@,
    }
}

impl CommandError {
    /// The message that reports this error.
    pub fn message(&self) -> (out: String)
        ensures
            out@ == command_error_text(*self),
    {
        match self {
            CommandError::NotConnected => String::from_str("Not connected"),
            CommandError::ReaderGone => String::from_str("Reader task gone (disconnected)"),
            CommandError::SendHeaderFailed(d) => {
                let mut s = String::from_str("Send header failed: ");
                s.append(d.as_str());
                s
            },
            CommandError::SendPayloadFailed(d) => {
                let mut s = String::from_str("Send payload failed: ");
                s.append(d.as_str());
                s
            },
            CommandError::ResponseTimeout => String::from_str("Response timeout"),
        }
    }
}

/// Whether the connection stays open after a command: it is dropped when the
/// reader is gone or a write failed, and kept otherwise.
pub open spec fn connection_kept(r: Result<(bool, String), CommandError>) -> bool {
    match r {
        Ok(_) => true,
        Err(CommandError::ReaderGone) => false,
        Err(CommandError::SendHeaderFailed(_)) => false,
        Err(CommandError::SendPayloadFailed(_)) => false,
        Err(_) => true,
    }
}

/// Decides whether the connection is handed back after a command.
pub fn keeps_connection(result: &Result<(bool, String), CommandError>) -> (out: bool)
    ensures
        out == connection_kept(*result),
{
    match result {
        Ok(_) => true,
        Err(CommandError::ReaderGone) => false,
        Err(CommandError::SendHeaderFailed(_)) => false,
        Err(CommandError::SendPayloadFailed(_)) => false,
        Err(_) => true,
    }
}

/// Whether a session is open, and with which peer.
#[derive(Debug, Clone)]
pub struct ConnectionStatus {
    pub connected: bool,
    pub ip: Option<String>,
    pub port: Option<u16>,
}

/// Reports the session state from the open session's peer, if any.
pub fn connection_status(peer: Option<(&String, u16)>) -> (out: ConnectionStatus)
    ensures
        out.connected == peer is Some,
        match peer {
            Some((ip, port)) => (out.ip matches Some(i) && i@ == ip@ && out.port == Some(port)),
            None => out.ip is None && out.port is None,
        },
{
    match peer {
        Some((ip, port)) => ConnectionStatus {
            connected: true,
            ip: Some(ip.clone()),
            port: Some(port),
        },
        None => ConnectionStatus { connected: false, ip: None, port: None },
    }
}

} // verus!

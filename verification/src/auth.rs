//! The authentication handshake.
//!
//! Before any application data flows, the client sends one `Hello` on a
//! stream of its own and the server answers with one `Accepted` or one `Fail`.
//! Each message travels as the payload of one frame. Turning a message into
//! payload bytes and back is the work of a serializer outside this crate;
//! what is decided here is the frame that a payload goes out in and what an
//! answer means.

use crate::error::Error;
use crate::frame::{FrameFlags, FrameHeader, FrameType};
use vstd::prelude::*;

verus! {

/// A message of the handshake.
#[derive(Debug, Clone, PartialEq, Eq)]
pub enum AuthMessage {
    /// The client asks to be let in.
    Hello { token: String },
    /// The server lets the client in.
    Accepted,
    /// The server turns the client away.
    Fail { reason: String },
}

/// What a peer found where it expected the other side's message.
#[derive(Debug, Clone, PartialEq, Eq)]
pub enum AuthReply {
    /// The stream ended before a frame came.
    Closed,
    /// A frame came whose payload is no handshake message.
    Malformed,
    /// A frame came with this message.
    Message(AuthMessage),
}

/// Why a handshake failed.
#[derive(Debug, Clone, PartialEq, Eq)]
pub enum HandshakeError {
    /// The frame for the peer's own message could not be encoded.
    Encode(Error),
    /// The other side closed the stream without a message.
    ClosedBeforeResponse,
    /// The other side's payload is no handshake message.
    MalformedResponse,
    /// The server turned the client away, for this reason.
    Rejected { reason: String },
    /// The other side sent a message that has no place at this point.
    UnexpectedMessage,
}

/// The header of the frame that carries a handshake message of
/// `payload_len` bytes: an archived payload without flags on channel 0 of
/// stream 0.
pub open spec fn auth_header_spec(payload_len: nat) -> FrameHeader {
    FrameHeader {
        flags: FrameFlags { control: false, priority: false },
        frame_type: FrameType::RkyvAligned,
        channel_id: 0,
        stream_id: 0,
        length: payload_len as u64,
    }
}

/// The header of the frame that carries a handshake message of
/// `payload_len` bytes.
pub fn auth_header(payload_len: usize) -> (header: FrameHeader)
    ensures
        header == auth_header_spec(payload_len as nat),
{
    FrameHeader {
        flags: FrameFlags::empty(),
        frame_type: FrameType::RkyvAligned,
        channel_id: 0,
        stream_id: 0,
        length: payload_len as u64,
    }
}

/// The wire form of the header that goes out before the serialized
/// handshake message `payload`.
///
/// Fails with `Encode(InvalidVarInt)`, and on no other ground, where the
/// payload is too long for a frame.
pub fn auth_frame_header(payload: &[u8]) -> (r: Result<Vec<u8>, HandshakeError>)
    ensures
        auth_header_spec(payload@.len()).encodable() ==> (r matches Ok(bytes) && bytes@
            == auth_header_spec(payload@.len()).wire_bytes()),
        !auth_header_spec(payload@.len()).encodable() ==> r == Err::<Vec<u8>, HandshakeError>(
            HandshakeError::Encode(Error::InvalidVarInt),
        ),
{
    match auth_header(payload.len()).to_bytes() {
        Ok(bytes) => Ok(bytes),
        Err(e) => Err(HandshakeError::Encode(e)),
    }
}

/// What the server's answer means to the client.
pub open spec fn client_verdict_spec(reply: AuthReply) -> Result<(), HandshakeError> {
    match reply {
        AuthReply::Closed => Err(HandshakeError::ClosedBeforeResponse),
        AuthReply::Malformed => Err(HandshakeError::MalformedResponse),
        AuthReply::Message(AuthMessage::Accepted) => Ok(()),
        AuthReply::Message(AuthMessage::Fail { reason }) => Err(
            HandshakeError::Rejected { reason },
        ),
        AuthReply::Message(AuthMessage::Hello { .. }) => Err(HandshakeError::UnexpectedMessage),
    }
}

/// What the server's answer means to the client.
///
/// Only `Accepted` lets the client in. `Fail` hands on the server's reason. A
/// `Hello` in the answer's place, a payload that is no message, and a stream
/// that ended without an answer each fail with an error of their own.
pub fn client_verdict(reply: AuthReply) -> (r: Result<(), HandshakeError>)
    ensures
        r == client_verdict_spec(reply),
{
    match reply {
        AuthReply::Closed => Err(HandshakeError::ClosedBeforeResponse),
        AuthReply::Malformed => Err(HandshakeError::MalformedResponse),
        AuthReply::Message(message) => match message {
            AuthMessage::Accepted => Ok(()),
            AuthMessage::Fail { reason } => Err(HandshakeError::Rejected { reason }),
            AuthMessage::Hello { .. } => Err(HandshakeError::UnexpectedMessage),
        },
    }
}

/// What the server answers to what the client opened with.
pub open spec fn server_verdict_spec(request: AuthReply) -> Result<AuthMessage, HandshakeError> {
    match request {
        AuthReply::Closed => Err(HandshakeError::ClosedBeforeResponse),
        AuthReply::Malformed => Err(HandshakeError::MalformedResponse),
        AuthReply::Message(AuthMessage::Hello { .. }) => Ok(AuthMessage::Accepted),
        AuthReply::Message(_) => Err(HandshakeError::UnexpectedMessage),
    }
}

/// What the server answers to what the client opened with.
///
/// A `Hello` is answered with `Accepted`, whatever its token: checking tokens is
/// left to the server's own policy. Anything else in the place of the
/// `Hello` ends the handshake with an error.
pub fn server_verdict(request: AuthReply) -> (r: Result<AuthMessage, HandshakeError>)
    ensures
        r == server_verdict_spec(request),
{
    match request {
        AuthReply::Closed => Err(HandshakeError::ClosedBeforeResponse),
        AuthReply::Malformed => Err(HandshakeError::MalformedResponse),
        AuthReply::Message(message) => match message {
            AuthMessage::Hello { .. } => Ok(AuthMessage::Accepted),
            _ => Err(HandshakeError::UnexpectedMessage),
        },
    }
}

} // verus!

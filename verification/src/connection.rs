//! One connection, driven from outside: whoever owns the socket hands each
//! chunk it has read to `step` and writes back what `step` tells it to. A
//! connection starts by awaiting the handshake and streams frames after it.
//! Every error is fatal to the connection: the caller closes the socket.

use crate::bytes::equal;
use crate::frame::{decode, decoded, encode, frame_bytes, is_truncated};
use crate::frame::{DecodeError, FrameView, Opcode, WebSocketFrame};
use crate::handshake::{handshake_response, process_handshake, text};
use crate::handshake::{HandshakeError, MAX_REQUEST_LEN};
use vstd::prelude::*;

verus! {

/// The message that is echoed.
pub const HELLO: &'static str = "hello";

/// Where a connection stands.
#[derive(Clone, Copy, Debug, PartialEq, Eq, Structural)]
pub enum ConnectionState {
    /// Nothing but a handshake request is expected.
    AwaitingHandshake,
    /// The handshake is done: every chunk is a frame.
    Streaming,
}

/// Why a connection has to be closed.
#[derive(Clone, Copy, Debug, PartialEq, Eq, Structural)]
pub enum ConnectionError {
    Handshake(HandshakeError),
    Frame(DecodeError),
}

/// A message received in a frame, and the frame to answer it with, if any.
#[derive(Clone, Debug, PartialEq, Eq)]
pub struct FrameOutcome {
    pub message: WebSocketFrame,
    pub reply: Option<Vec<u8>>,
}

/// What one chunk leads to: the state from now on, the message that was
/// received, if the chunk was a frame, and the bytes to write back, if any.
#[derive(Clone, Debug, PartialEq, Eq)]
pub struct Step {
    pub next: ConnectionState,
    pub message: Option<WebSocketFrame>,
    pub send: Option<Vec<u8>>,
}

/// The mathematical value of a `Step`.
pub struct StepView {
    pub next: ConnectionState,
    pub message: Option<FrameView>,
    pub send: Option<Seq<u8>>,
}

/// The bytes of an optional buffer.
pub open spec fn bytes_of(buffer: Option<Vec<u8>>) -> Option<Seq<u8>> {
    match buffer {
        Some(bytes) => Some(bytes@),
        None => None,
    }
}

impl View for Step {
    type V = StepView;

    open spec fn view(&self) -> StepView {
        StepView {
            next: self.next,
            message: match self.message {
                Some(frame) => Some(frame@),
                None => None,
            },
            send: bytes_of(self.send),
        }
    }
}

/// Messages are handled in text and binary frames only.
pub open spec fn is_handled(opcode: Opcode) -> bool {
    opcode == Opcode::Text || opcode == Opcode::Binary
}

/// The reply to a message: a message that reads `hello` is echoed in an
/// unmasked frame of the same opcode, any other is not answered.
pub open spec fn reply_to(message: FrameView) -> Option<Seq<u8>> {
    if message.payload == text(HELLO) {
        Some(frame_bytes(message.opcode, message.payload, None))
    } else {
        None
    }
}

/// What a chunk that holds a frame leads to: the decoded message with its
/// reply, or the error that decoding gives, or `UnsupportedOpcode` for a
/// frame that decodes but is neither text nor binary.
pub open spec fn frame_outcome(bytes: Seq<u8>) -> Result<(FrameView, Option<Seq<u8>>), DecodeError> {
    match decoded(bytes) {
        Err(e) => Err(e),
        Ok(frame) => if is_handled(frame.opcode) {
            Ok((frame, reply_to(frame)))
        } else {
            Err(DecodeError::UnsupportedOpcode)
        },
    }
}

/// What a chunk leads to in a given state.
pub open spec fn transition(state: ConnectionState, bytes: Seq<u8>) -> Result<
    StepView,
    ConnectionError,
> {
    match state {
        ConnectionState::AwaitingHandshake => match handshake_response(bytes) {
            Ok(response) => Ok(
                StepView { next: ConnectionState::Streaming, message: None, send: Some(response) },
            ),
            Err(e) => Err(ConnectionError::Handshake(e)),
        },
        ConnectionState::Streaming => match frame_outcome(bytes) {
            Ok((message, reply)) => Ok(
                StepView { next: ConnectionState::Streaming, message: Some(message), send: reply },
            ),
            Err(e) => Err(ConnectionError::Frame(e)),
        },
    }
}

/// The reply to a message, if it gets one.
pub fn reply_for(message: &WebSocketFrame) -> (reply: Option<Vec<u8>>)
    ensures
        bytes_of(reply) == reply_to(message@),
{
    if equal(message.payload.as_slice(), HELLO.as_bytes()) {
        Some(encode(message.opcode, message.payload.as_slice()))
    } else {
        None
    }
}

/// Decodes the frame at the start of `bytes` and answers it.
///
/// Fails as `decode` does, a truncated buffer always with `TruncatedFrame`,
/// and with `UnsupportedOpcode` exactly when the frame decodes and is
/// neither text nor binary.
pub fn process_frame(bytes: &[u8]) -> (result: Result<FrameOutcome, DecodeError>)
    ensures
        match result {
            Ok(outcome) => frame_outcome(bytes@) == Ok::<
                (FrameView, Option<Seq<u8>>),
                DecodeError,
            >((outcome.message@, bytes_of(outcome.reply))),
            Err(e) => frame_outcome(bytes@) == Err::<(FrameView, Option<Seq<u8>>), DecodeError>(e),
        },
        is_truncated(bytes@) ==> result == Err::<FrameOutcome, DecodeError>(
            DecodeError::TruncatedFrame,
        ),
{
    let message = match decode(bytes) {
        Ok(frame) => frame,
        Err(e) => {
            return Err(e);
        },
    };
    if message.opcode == Opcode::Text || message.opcode == Opcode::Binary {
        let reply = reply_for(&message);
        Ok(FrameOutcome { message, reply })
    } else {
        Err(DecodeError::UnsupportedOpcode)
    }
}

/// Takes one chunk in the given state.
///
/// While the handshake is awaited the chunk is a handshake request: where it
/// is accepted the response is to be sent and the connection streams from
/// then on. While streaming the chunk is a frame: its message is handed out
/// with the reply to send, if there is one. An error leaves nothing to send.
pub fn step(state: ConnectionState, bytes: &[u8]) -> (result: Result<Step, ConnectionError>)
    requires
        state == ConnectionState::AwaitingHandshake ==> bytes@.len() <= MAX_REQUEST_LEN,
    ensures
        match result {
            Ok(taken) => transition(state, bytes@) == Ok::<StepView, ConnectionError>(taken@),
            Err(e) => transition(state, bytes@) == Err::<StepView, ConnectionError>(e),
        },
        result matches Ok(taken) ==> taken.next == ConnectionState::Streaming,
{
    match state {
        ConnectionState::AwaitingHandshake => match process_handshake(bytes) {
            Ok(response) => Ok(
                Step { next: ConnectionState::Streaming, message: None, send: Some(response) },
            ),
            Err(e) => Err(ConnectionError::Handshake(e)),
        },
        ConnectionState::Streaming => match process_frame(bytes) {
            Ok(outcome) => Ok(
                Step {
                    next: ConnectionState::Streaming,
                    message: Some(outcome.message),
                    send: outcome.reply,
                },
            ),
            Err(e) => Err(ConnectionError::Frame(e)),
        },
    }
}

} // verus!

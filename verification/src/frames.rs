//! The frames that client and gateway exchange, and their binary payloads,
//! which travel as standard base64.

use crate::pty::{pty_error_text, PtyError, PtyErrorView};
use crate::session_id::{format_session_id, session_id_parsed, session_id_text, SessionId};
use base64::Engine;
use vstd::prelude::*;

verus! {

/// A frame from the client.
#[derive(Debug, Clone, PartialEq, Eq)]
pub enum ClientMessage {
    /// Key bytes, as base64.
    Input { data: String },
    /// The new size of the client's terminal.
    Resize { rows: u16, cols: u16 },
}

/// A frame to the client.
#[derive(Debug, Clone, PartialEq, Eq)]
pub enum ServerMessage {
    /// Terminal output, as base64.
    Output { data: String },
    /// A diagnostic that does not end the session by itself.
    Error { message: String },
    /// The first frame of a connection: the session's id.
    Connected { session_id: String },
    /// A status note.
    Status { message: String },
}

/// What a frame from the client holds.
pub ghost enum ClientMessageView {
    Input { data: Seq<char> },
    Resize { rows: u16, cols: u16 },
}

impl View for ClientMessage {
    type V = ClientMessageView;

    open spec fn view(&self) -> ClientMessageView {
        match self {
            ClientMessage::Input { data } => ClientMessageView::Input { data: data@ },
            ClientMessage::Resize { rows, cols } => ClientMessageView::Resize {
                rows: *rows,
                cols: *cols,
            },
        }
    }
}

/// What a frame to the client holds.
pub ghost enum ServerMessageView {
    Output { data: Seq<char> },
    Error { message: Seq<char> },
    Connected { session_id: Seq<char> },
    Status { message: Seq<char> },
}

impl View for ServerMessage {
    type V = ServerMessageView;

    open spec fn view(&self) -> ServerMessageView {
        match self {
            ServerMessage::Output { data } => ServerMessageView::Output { data: data@ },
            ServerMessage::Error { message } => ServerMessageView::Error { message: message@ },
            ServerMessage::Connected { session_id } => ServerMessageView::Connected {
                session_id: session_id@,
            },
            ServerMessage::Status { message } => ServerMessageView::Status { message: message@ },
        }
    }
}

/// Why base64 text could not be decoded.
#[verifier::external_type_specification]
#[verifier::external_body]
pub struct ExDecodeError(base64::DecodeError);

/// `data` in standard base64, with padding.
pub uninterp spec fn base64_text(data: Seq<u8>) -> Seq<char>;

/// The bytes that `text` stands for in standard base64, if it is well-formed.
pub uninterp spec fn base64_bytes(text: Seq<char>) -> Option<Seq<u8>>;

/// Whether base64 text for `len` bytes has a length that fits in `usize`.
pub open spec fn encodable(len: nat) -> bool {
    len / 3 * 4 + 4 <= usize::MAX
}

/// `encode` of `base64::engine::general_purpose::STANDARD`: the result
/// depends on the bytes alone, and `decode` of the same engine gives the
/// bytes back. It panics where the length of the text does not fit in
/// `usize`; such input is left out.
#[verifier::external_body]
fn base64_encode(data: &[u8]) -> (text: String)
    requires
        encodable(data@.len()),
    ensures
        text@ == base64_text(data@),
        base64_bytes(text@) == Some(data@),
{
    base64::engine::general_purpose::STANDARD.encode(data)
}

/// `decode` of `base64::engine::general_purpose::STANDARD`: whether it
/// succeeds, and with which bytes, depends on the text alone. Empty text
/// stands for no bytes at all.
#[verifier::external_body]
fn base64_decode(text: &str) -> (bytes: Result<Vec<u8>, base64::DecodeError>)
    ensures
        match bytes {
            Ok(bytes) => base64_bytes(text@) == Some(bytes@) && (text@.len() == 0 ==> bytes@.len()
                == 0),
            Err(_) => base64_bytes(text@) is None,
        },
{
    base64::engine::general_purpose::STANDARD.decode(text)
}

/// The payload of an input frame, decoded.
pub fn decode_input(data: &str) -> (bytes: Option<Vec<u8>>)
    ensures
        match bytes {
            Some(bytes) => base64_bytes(data@) == Some(bytes@) && (data@.len() == 0 ==> bytes@.len()
                == 0),
            None => base64_bytes(data@) is None,
        },
{
    match base64_decode(data) {
        Ok(bytes) => Some(bytes),
        Err(_) => None,
    }
}

/// The first frame of a connection.
pub fn connected_frame(id: SessionId) -> (frame: ServerMessage)
    ensures
        frame@ == (ServerMessageView::Connected { session_id: session_id_text(id) }),
        session_id_parsed(session_id_text(id)) == Some(id),
{
    ServerMessage::Connected { session_id: format_session_id(id) }
}

/// The frame for what a read from the terminal came to, if it calls for
/// one: none where nothing was read, the bytes as base64 where some were,
/// and a diagnostic where the read failed or the bytes are too many to be
/// written as base64 at all.
pub open spec fn frame_for_read(read: Result<Seq<u8>, PtyErrorView>) -> Option<ServerMessageView> {
    match read {
        Ok(data) => if data.len() == 0 {
            None
        } else if encodable(data.len()) {
            Some(ServerMessageView::Output { data: base64_text(data) })
        } else {
            Some(ServerMessageView::Error { message: "Output too large"@ })
        },
        Err(error) => Some(ServerMessageView::Error { message: pty_error_text(error) }),
    }
}

/// What a frame, or none, holds.
pub open spec fn frame_view(frame: Option<ServerMessage>) -> Option<ServerMessageView> {
    match frame {
        Some(frame) => Some(frame@),
        None => None,
    }
}

/// The frame for terminal output, if there is any output. What an output
/// frame carries decodes to just the bytes it was made of.
pub fn output_frame(data: &[u8]) -> (frame: Option<ServerMessage>)
    ensures
        frame_view(frame) == frame_for_read(Ok(data@)),
        frame matches Some(ServerMessage::Output { data: text }) ==> base64_bytes(text@) == Some(
            data@,
        ),
{
    if data.len() == 0 {
        None
    } else if data.len() / 3 <= (usize::MAX - 4) / 4 {
        Some(ServerMessage::Output { data: base64_encode(data) })
    } else {
        Some(ServerMessage::Error { message: "Output too large".to_owned() })
    }
}

/// The frame that reports a failed read from the terminal.
pub fn error_frame(error: &PtyError) -> (frame: ServerMessage)
    ensures
        frame@ == (ServerMessageView::Error { message: pty_error_text(error@) }),
{
    ServerMessage::Error { message: error.message() }
}

} // verus!

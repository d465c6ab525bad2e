//! Persistent-WebSocket transport of the Responses API: the headers of
//! the upgrade request, how transport failures become errors of the
//! agent, and how each server frame of a turn is answered.
//!
//! The socket itself is driven by the caller; these functions decide.

use vstd::prelude::*;

use crate::pool::LlmError;
use crate::text::{owned, push_decimal, push_str};

verus! {

broadcast use vstd::string::group_string_axioms;

/// Beta-feature header value the WebSocket endpoint expects, dated by the
/// server.
pub const OPENAI_BETA_WS: &'static str = "responses_websockets=2026-02-06";

/// The headers of the upgrade request, in order: the bearer token, the
/// beta marker, and the account id when there is one.
pub open spec fn upgrade_headers_spec(api_key: Seq<char>, account_id: Option<Seq<char>>) -> Seq<(Seq<char>, Seq<char>)> {
    seq![("Authorization"@, "Bearer "@ + api_key), ("OpenAI-Beta"@, OPENAI_BETA_WS@)] + match account_id {
        Some(a) => seq![("chatgpt-account-id"@, a)],
        None => Seq::empty(),
    }
}

/// The views of a list of header name and value pairs.
pub open spec fn header_pairs(h: Seq<(String, String)>) -> Seq<(Seq<char>, Seq<char>)> {
    Seq::new(h.len(), |i: int| (h[i].0@, h[i].1@))
}

/// The headers to set on the upgrade request for `api_key` and the
/// optional account id.
pub fn upgrade_headers(api_key: &str, account_id: Option<&str>) -> (res: Vec<(String, String)>)
    ensures
        header_pairs(res@) == upgrade_headers_spec(api_key@, match account_id { Some(a) => Some(a@), None => None }),
{
    let mut out: Vec<(String, String)> = Vec::new();
    let mut bearer = owned("Bearer ");
    push_str(&mut bearer, api_key);
    out.push((owned("Authorization"), bearer));
    out.push((owned("OpenAI-Beta"), owned(OPENAI_BETA_WS)));
    match account_id {
        Some(a) => out.push((owned("chatgpt-account-id"), owned(a))),
        None => {},
    }
    assert(header_pairs(out@) =~= upgrade_headers_spec(api_key@, match account_id { Some(a) => Some(a@), None => None }));
    out
}

/// The error for a header value the request cannot carry: a transport
/// failure naming the header and the parser's complaint.
pub fn header_error(name: &str, complaint: &str) -> (res: LlmError)
    ensures
        res == LlmError::HttpStatus(0, res->1) && res->1@ == "ws header "@ + name@ + ": "@ + complaint@,
{
    let mut msg = owned("ws header ");
    push_str(&mut msg, name);
    push_str(&mut msg, ": ");
    push_str(&mut msg, complaint);
    LlmError::HttpStatus(0, msg)
}

/// What kind of transport failure the WebSocket reported.
#[derive(Debug)]
pub enum WsFailureKind {
    /// The server answered the upgrade with an HTTP response: its status
    /// and its body bytes, if it had a body.
    Http { status: u16, body: Option<Vec<u8>> },
    /// The connection was closed, or was used after it closed.
    Closed,
    /// Any other failure: I/O, TLS, protocol, capacity.
    Other,
}

/// A transport failure of the WebSocket: its kind and its display text.
#[derive(Debug)]
pub struct WsFailure {
    pub kind: WsFailureKind,
    pub text: String,
}

/// The text some bytes encode when they are valid UTF-8 (well-formed
/// sequences, no overlong encodings, no surrogates), or none otherwise.
pub open spec fn utf8_text(bytes: Seq<u8>) -> Option<Seq<char>> {
    if vstd::utf8::valid_utf8(bytes) {
        Some(vstd::utf8::decode_utf8(bytes))
    } else {
        None
    }
}

/// The text the bytes hold, or none when they are not UTF-8.
///
/// Trusted wrapper around `std::str::from_utf8`, which accepts exactly the
/// valid UTF-8 byte sequences and decodes them into their characters.
#[verifier::external_body]
fn decode_utf8(bytes: &[u8]) -> (res: Option<String>)
    ensures
        match res {
            Some(s) => utf8_text(bytes@) == Some(s@),
            None => utf8_text(bytes@) is None,
        },
{
    std::str::from_utf8(bytes).ok().map(str::to_owned)
}

/// The error a failed upgrade gives: the HTTP status and body text (empty
/// when there is no UTF-8 body) of a refused upgrade; otherwise a
/// retryable transport failure.
pub open spec fn connect_error_spec(kind: WsFailureKind, text: Seq<char>) -> (u16, Seq<char>) {
    match kind {
        WsFailureKind::Http { status, body } => (status, match body {
            Some(b) => match utf8_text(b@) {
                Some(t) => t,
                None => Seq::empty(),
            },
            None => Seq::empty(),
        }),
        _ => (0, "stream error: ws connect: "@ + text),
    }
}

/// Maps a failure of the upgrade to an agent error: a 426 status asks to
/// fall back to HTTP streaming, other statuses surface as they are, and
/// status 0 marks a retryable transport hiccup.
pub fn connect_error(failure: WsFailure) -> (res: LlmError)
    ensures
        res == LlmError::HttpStatus(connect_error_spec(failure.kind, failure.text@).0, res->1),
        res->1@ == connect_error_spec(failure.kind, failure.text@).1,
{
    match failure.kind {
        WsFailureKind::Http { status, body } => {
            let text = match body {
                Some(b) => match decode_utf8(b.as_slice()) {
                    Some(t) => t,
                    None => String::new(),
                },
                None => String::new(),
            };
            LlmError::HttpStatus(status, text)
        },
        _ => {
            let mut msg = owned("stream error: ws connect: ");
            push_str(&mut msg, failure.text.as_str());
            LlmError::HttpStatus(0, msg)
        },
    }
}

/// The error a failure in the middle of a turn gives: always retryable;
/// a closed connection says so, anything else carries its text.
pub open spec fn runtime_error_text(kind: WsFailureKind, text: Seq<char>) -> Seq<char> {
    match kind {
        WsFailureKind::Closed => "stream error: ws closed"@,
        _ => "stream error: "@ + text,
    }
}

/// Maps a failure while sending or reading a turn to a retryable error.
pub fn runtime_error(failure: WsFailure) -> (res: LlmError)
    ensures
        res == LlmError::HttpStatus(0, res->1),
        res->1@ == runtime_error_text(failure.kind, failure.text@),
{
    match failure.kind {
        WsFailureKind::Closed => LlmError::HttpStatus(0, owned("stream error: ws closed")),
        _ => {
            let mut msg = owned("stream error: ");
            push_str(&mut msg, failure.text.as_str());
            LlmError::HttpStatus(0, msg)
        },
    }
}

/// A frame the server sent during a turn.
#[derive(Debug)]
pub enum WsFrame {
    /// A text frame: one JSON-encoded `response.*` event.
    Text(String),
    Binary,
    /// A close frame, with its code and reason when it has them.
    Close(Option<(u16, String)>),
    Ping,
    Pong,
    /// A raw frame.
    Raw,
}

/// How a turn goes on after a frame.
#[derive(Debug)]
pub enum FrameStep {
    /// Decode the text as an event and apply it; an undecodable text is
    /// skipped.
    Event(String),
    /// Nothing to do; read the next frame.
    Skip,
    /// The turn fails with this error.
    Fail(LlmError),
}

/// The text that describes a close frame.
pub open spec fn close_reason(frame: Option<(u16, String)>) -> Seq<char> {
    match frame {
        Some((code, reason)) => "code="@ + crate::text::decimal(code as nat) + " reason="@ + reason@,
        None => "no close frame"@,
    }
}

/// Answers one server frame of a turn: text frames carry events, a close
/// frame ends the turn with a retryable error, everything else is skipped.
pub fn frame_step(frame: WsFrame) -> (res: FrameStep)
    ensures
        match frame {
            WsFrame::Text(t) => res matches FrameStep::Event(e) && e@ == t@,
            WsFrame::Close(c) => res matches FrameStep::Fail(LlmError::HttpStatus(code, msg)) && code == 0
                && msg@ == "stream error: ws closed mid-stream ("@ + close_reason(c) + ")"@,
            _ => res is Skip,
        },
{
    match frame {
        WsFrame::Text(t) => FrameStep::Event(t),
        WsFrame::Close(c) => {
            let mut msg = owned("stream error: ws closed mid-stream (");
            match c {
                Some((code, reason)) => {
                    push_str(&mut msg, "code=");
                    push_decimal(&mut msg, code as u128);
                    push_str(&mut msg, " reason=");
                    push_str(&mut msg, reason.as_str());
                },
                None => push_str(&mut msg, "no close frame"),
            }
            push_str(&mut msg, ")");
            FrameStep::Fail(LlmError::HttpStatus(0, msg))
        },
        _ => FrameStep::Skip,
    }
}

} // verus!

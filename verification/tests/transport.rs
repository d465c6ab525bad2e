use tau::pool::{build_ws_url, LlmError};
use tau::ws::{
    connect_error, frame_step, header_error, runtime_error, upgrade_headers, FrameStep, WsFailure, WsFailureKind,
    WsFrame, OPENAI_BETA_WS,
};

fn status(err: LlmError) -> (u16, String) {
    match err {
        LlmError::HttpStatus(code, body) => (code, body),
    }
}

#[test]
fn upgrade_headers_carry_bearer_beta_and_account() {
    let headers = upgrade_headers("sk-1", Some("acct"));
    assert_eq!(
        headers,
        vec![
            ("Authorization".to_owned(), "Bearer sk-1".to_owned()),
            ("OpenAI-Beta".to_owned(), OPENAI_BETA_WS.to_owned()),
            ("chatgpt-account-id".to_owned(), "acct".to_owned()),
        ]
    );
    assert_eq!(upgrade_headers("k", None).len(), 2);
    assert_eq!(status(header_error("OpenAI-Beta", "invalid")), (0, "ws header OpenAI-Beta: invalid".to_owned()));
}

#[test]
fn refused_upgrade_keeps_status_and_body() {
    let err = connect_error(WsFailure {
        kind: WsFailureKind::Http { status: 426, body: Some(b"upgrade required".to_vec()) },
        text: "HTTP error: 426".to_owned(),
    });
    assert_eq!(status(err), (426, "upgrade required".to_owned()));
    let err = connect_error(WsFailure {
        kind: WsFailureKind::Http { status: 401, body: Some(vec![0xff, 0xfe]) },
        text: "HTTP error: 401".to_owned(),
    });
    assert_eq!(status(err), (401, String::new()));
    let err = connect_error(WsFailure { kind: WsFailureKind::Http { status: 500, body: None }, text: String::new() });
    assert_eq!(status(err), (500, String::new()));
}

#[test]
fn transport_failures_are_retryable_stream_errors() {
    let err = connect_error(WsFailure { kind: WsFailureKind::Other, text: "IO error: refused".to_owned() });
    assert_eq!(status(err), (0, "stream error: ws connect: IO error: refused".to_owned()));
    let err = runtime_error(WsFailure { kind: WsFailureKind::Closed, text: "Connection closed normally".to_owned() });
    assert_eq!(status(err), (0, "stream error: ws closed".to_owned()));
    let err = runtime_error(WsFailure { kind: WsFailureKind::Other, text: "IO error: reset".to_owned() });
    assert_eq!(status(err), (0, "stream error: IO error: reset".to_owned()));
}

#[test]
fn frames_of_a_turn() {
    assert!(matches!(frame_step(WsFrame::Text("{}".to_owned())), FrameStep::Event(t) if t == "{}"));
    assert!(matches!(frame_step(WsFrame::Binary), FrameStep::Skip));
    assert!(matches!(frame_step(WsFrame::Ping), FrameStep::Skip));
    assert!(matches!(frame_step(WsFrame::Pong), FrameStep::Skip));
    assert!(matches!(frame_step(WsFrame::Raw), FrameStep::Skip));
    match frame_step(WsFrame::Close(Some((1000, "bye".to_owned())))) {
        FrameStep::Fail(err) => {
            assert_eq!(status(err), (0, "stream error: ws closed mid-stream (code=1000 reason=bye)".to_owned()))
        }
        other => panic!("close must fail the turn: {other:?}"),
    }
    match frame_step(WsFrame::Close(None)) {
        FrameStep::Fail(err) => {
            assert_eq!(status(err), (0, "stream error: ws closed mid-stream (no close frame)".to_owned()))
        }
        other => panic!("close must fail the turn: {other:?}"),
    }
}

#[test]
fn ws_url_swaps_scheme() {
    assert_eq!(build_ws_url("https://chatgpt.com/backend-api/").ok(), Some("wss://chatgpt.com/backend-api/codex/responses".to_owned()));
    assert_eq!(build_ws_url("http://localhost:8080").ok(), Some("ws://localhost:8080/codex/responses".to_owned()));
    assert!(build_ws_url("ftp://x").is_err());
}

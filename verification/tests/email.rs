use tau::cbor::CborValue;
use tau::email::{
    cbor_nested_text_field, cbor_text_field, email_tool_spec, error_envelope, parse_command, require_state_dir,
    EmailCommand, RuntimeState, TOOL_NAME,
};
use tau::tool::{PromptOriginator, ToolExecutionMode, ToolOutcome, ToolResultKind, ToolStarted, ToolType};

fn text(s: &str) -> CborValue {
    CborValue::Text(s.to_owned())
}

fn cbor_map(entries: Vec<(&str, CborValue)>) -> CborValue {
    CborValue::Dict(entries.into_iter().map(|(k, v)| (text(k), v)).collect())
}

fn command_args(command: &str, args: Vec<(&str, CborValue)>) -> CborValue {
    cbor_map(vec![("command", text(command)), ("args", cbor_map(args))])
}

fn invoke(command: &str, args: Vec<(&str, CborValue)>) -> ToolStarted {
    ToolStarted { call_id: "call-1".into(), tool_name: TOOL_NAME.into(), arguments: command_args(command, args), originator: PromptOriginator::User }
}

fn text_field<'a>(value: &'a CborValue, field: &str) -> Option<&'a str> {
    cbor_text_field(value, field).map(|s| s.as_str())
}

fn nested_text<'a>(value: &'a CborValue, outer: &str, inner: &str) -> Option<&'a str> {
    cbor_nested_text_field(value, outer, inner).map(|s| s.as_str())
}

fn cbor_bool_field(value: &CborValue, field: &str) -> Option<bool> {
    let CborValue::Dict(entries) = value else {
        return None;
    };
    entries.iter().find_map(|(key, value)| match (key, value) {
        (CborValue::Text(key), CborValue::Bool(value)) if key == field => Some(*value),
        _ => None,
    })
}

fn configured() -> RuntimeState {
    let mut state = RuntimeState::new();
    state.configure(Ok("/tmp/email-state".to_owned())).expect("configure");
    state
}

#[test]
fn registers_single_email_tool() {
    let tool = email_tool_spec();
    assert_eq!(tool.name.as_str(), TOOL_NAME);
    assert_eq!(tool.execution_mode, ToolExecutionMode::Exclusive);
    assert!(tool.parameters.is_some());
}

#[test]
fn configure_requires_state_dir() {
    let mut state = RuntimeState::new();
    let err = state.configure(require_state_dir(None)).expect_err("must be rejected");
    assert!(err.contains("state_dir"), "{err}");
}

#[test]
fn known_command_returns_structured_not_implemented() {
    let state = configured();
    let ToolOutcome::Result { call_id, tool_name, tool_type, result, kind, originator, .. } =
        state.dispatch(invoke("list_accounts", vec![]))
    else {
        panic!("expected tool result");
    };
    assert_eq!(tool_name.as_str(), TOOL_NAME);
    assert_eq!(call_id, "call-1");
    assert_eq!((tool_type, kind, originator), (ToolType::Function, ToolResultKind::Final, PromptOriginator::User));
    assert_eq!(text_field(&result, "command"), Some("list_accounts"));
    assert_eq!(nested_text(&result, "error", "code"), Some("not_implemented"));
    assert_eq!(cbor_bool_field(&result, "ok"), Some(false));
}

#[test]
fn rejects_unexpected_command_arguments() {
    let state = configured();
    let ToolOutcome::Error { message, details, .. } =
        state.dispatch(invoke("list_accounts", vec![("account", text("default"))]))
    else {
        panic!("expected tool error");
    };
    assert!(message.contains("unexpected argument"), "{message}");
    let details = details.as_ref().expect("details");
    assert_eq!(text_field(details, "command"), Some("list_accounts"));
    assert_eq!(nested_text(details, "error", "code"), Some("invalid_arguments"));
}

#[test]
fn rejected_config_is_reported_on_later_tool_calls() {
    let mut state = RuntimeState::new();
    let err = state.configure(Err("unknown field `unexpected`".to_owned())).expect_err("rejected");
    assert!(err.contains("unexpected"), "{err}");
    let ToolOutcome::Error { call_id, tool_name, message, details, display, .. } =
        state.dispatch(invoke("list_accounts", vec![]))
    else {
        panic!("expected tool error");
    };
    assert!(message.contains("configuration was rejected"), "{message}");
    assert_eq!((call_id.as_str(), tool_name.as_str()), ("call-1", TOOL_NAME));
    assert_eq!(display.expect("display").status_text, message);
    let details = details.as_ref().expect("details");
    assert_eq!(text_field(details, "command"), Some("list_accounts"));
    assert_eq!(nested_text(details, "error", "code"), Some("not_configured"));
}

#[test]
fn unconfigured_state_reports_not_configured() {
    let state = RuntimeState::new();
    let ToolOutcome::Error { details, .. } = state.dispatch(invoke("read", vec![])) else {
        panic!("expected tool error");
    };
    let details = details.as_ref().expect("details");
    assert_eq!(nested_text(details, "error", "code"), Some("not_configured"));
    assert_eq!(text_field(details, "command"), Some("read"));
}

#[test]
fn parser_accepts_phase_a_command_shapes() {
    let cases = [
        (command_args("list_accounts", vec![]), EmailCommand::ListAccounts),
        (
            command_args("list_folders", vec![("account", text("work"))]),
            EmailCommand::ListFolders { account: "work".to_owned() },
        ),
        (
            command_args(
                "list",
                vec![
                    ("account", text("work")),
                    ("folder", text("INBOX")),
                    ("limit", CborValue::Integer(25)),
                    ("cursor", text("next-page")),
                ],
            ),
            EmailCommand::List {
                account: "work".to_owned(),
                folder: "INBOX".to_owned(),
                limit: 25,
                cursor: Some("next-page".to_owned()),
            },
        ),
        (
            command_args("read", vec![("account", text("work")), ("folder", text("INBOX")), ("uid", text("abc"))]),
            EmailCommand::Read { account: "work".to_owned(), folder: "INBOX".to_owned(), uid: "abc".to_owned() },
        ),
        (
            command_args(
                "send",
                vec![
                    ("from", text("me@example.com")),
                    ("to", CborValue::Array(vec![text("you@example.com")])),
                    ("subject", text("")),
                    ("body_text", text("hello")),
                    ("reply_to", CborValue::Null),
                    ("attachments", CborValue::Array(Vec::new())),
                ],
            ),
            EmailCommand::Send {
                account: None,
                from: Some("me@example.com".to_owned()),
                to: vec!["you@example.com".to_owned()],
                cc: Vec::new(),
                bcc: Vec::new(),
                subject: String::new(),
                body_text: "hello".to_owned(),
            },
        ),
    ];

    for (arguments, expected) in cases {
        assert_eq!(parse_command(&arguments).expect("parse"), expected);
    }
}

#[test]
fn parser_rejects_invalid_phase_a_values() {
    let cases = [
        (
            command_args(
                "list",
                vec![("account", text("work")), ("folder", text("INBOX")), ("limit", CborValue::Integer(0))],
            ),
            "positive integer",
        ),
        (
            command_args(
                "send",
                vec![("to", CborValue::Array(Vec::new())), ("subject", text("hi")), ("body_text", text("body"))],
            ),
            "must not be empty",
        ),
        (
            command_args(
                "send",
                vec![("to", CborValue::Array(vec![text("")])), ("subject", text("hi")), ("body_text", text("body"))],
            ),
            "entries must not be empty",
        ),
        (
            command_args(
                "send",
                vec![
                    ("to", CborValue::Array(vec![text("you@example.com")])),
                    ("subject", text("hi")),
                    ("body_text", text("body")),
                    ("attachments", text("not-array")),
                ],
            ),
            "attachments` must be an array",
        ),
    ];

    for (arguments, expected_message) in cases {
        let error = parse_command(&arguments).expect_err("reject invalid arguments");
        let message = nested_text(&error, "error", "message").expect("message");
        assert!(message.contains(expected_message), "{message:?} should contain {expected_message:?}");
    }
}

#[test]
fn error_envelope_carries_code_and_message() {
    let env = error_envelope(Some("send"), "invalid_arguments", "bad");
    assert_eq!(text_field(&env, "command"), Some("send"));
    assert_eq!(nested_text(&env, "error", "code"), Some("invalid_arguments"));
    assert_eq!(nested_text(&env, "error", "message"), Some("bad"));
    assert_eq!(cbor_bool_field(&env, "ok"), Some(false));
}

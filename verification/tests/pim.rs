use tau::cbor::CborValue;
use tau::pim::{pim_tool_owner, PimRuntime, PimTool};
use tau::tool::{PromptOriginator, ToolOutcome, ToolStarted};

fn started(tool: &str) -> ToolStarted {
    ToolStarted {
        call_id: "call-1".to_owned(),
        tool_name: tool.to_owned(),
        arguments: CborValue::Dict(vec![]),
        originator: PromptOriginator::User,
    }
}

#[test]
fn ignores_tool_started_for_tools_owned_by_other_extensions() {
    let runtime = PimRuntime::new();
    assert!(runtime.dispatch_tool(started("read"), |_, _, _| Ok(String::new())).is_none());
    assert_eq!(pim_tool_owner("read"), PimTool::Foreign);
}

#[test]
fn email_and_calendar_calls_are_answered_by_their_modules() {
    let runtime = PimRuntime::new();
    assert_eq!(pim_tool_owner("email"), PimTool::Email);
    assert_eq!(pim_tool_owner("calendar"), PimTool::Calendar);
    match runtime.dispatch_tool(started("email"), |_, _, _| Ok(String::new())) {
        Some(ToolOutcome::Error { call_id, tool_name, message, .. }) => {
            assert_eq!(call_id, "call-1");
            assert_eq!(tool_name, "email");
            assert_eq!(message, "Configure.state_dir has not been received");
        },
        other => panic!("unexpected answer: {other:?}"),
    }
    match runtime.dispatch_tool(started("calendar"), |_, _, _| Ok(String::new())) {
        Some(ToolOutcome::Error { call_id, tool_name, message, .. }) => {
            assert_eq!(call_id, "call-1");
            assert_eq!(tool_name, "calendar");
            assert_eq!(message, "calendar module has not been configured");
        },
        other => panic!("unexpected answer: {other:?}"),
    }
}

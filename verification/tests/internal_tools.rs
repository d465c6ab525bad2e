use tau::cbor::CborValue;
use tau::internal_tools::{route_internal_tool_started, InternalStartedRoute, PendingTool};
use tau::tool::{PromptOriginator, ToolStarted, ToolType};

fn started(call_id: &str) -> ToolStarted {
    ToolStarted {
        call_id: call_id.to_owned(),
        tool_name: "agent_start".to_owned(),
        arguments: CborValue::Dict(vec![(CborValue::Text("prompt".to_owned()), CborValue::Text("hi".to_owned()))]),
        originator: PromptOriginator::User,
    }
}

fn pending() -> PendingTool {
    PendingTool { name: "agent_start".to_owned(), internal_name: "core.agent_start".to_owned(), tool_type: ToolType::Function }
}

fn discarded(route: InternalStartedRoute) -> String {
    match route {
        InternalStartedRoute::Discard(m) => m,
        InternalStartedRoute::Handle { .. } => panic!("expected the event to be discarded"),
    }
}

#[test]
fn unknown_call_is_discarded() {
    let route = route_internal_tool_started(None, Some(pending()), &vec![true], started("c1"));
    assert_eq!(discarded(route), "discarding internal tool.started for unknown call_id=c1");
}

#[test]
fn call_without_pending_tool_is_discarded() {
    let route = route_internal_tool_started(Some("conv".to_owned()), None, &vec![true], started("c2"));
    assert_eq!(discarded(route), "discarding internal tool.started without pending tool for call_id=c2");
}

#[test]
fn unhandled_internal_tool_is_discarded() {
    let route = route_internal_tool_started(Some("conv".to_owned()), Some(pending()), &vec![false, false], started("c3"));
    assert_eq!(discarded(route), "discarding internal tool.started for unhandled internal tool `core.agent_start`");
}

#[test]
fn first_owning_handler_runs_the_call() {
    let route = route_internal_tool_started(Some("conv".to_owned()), Some(pending()), &vec![false, true, true], started("c4"));
    match route {
        InternalStartedRoute::Handle { handler, conversation, call, visible_tool_name } => {
            assert_eq!(handler, 1);
            assert_eq!(conversation, "conv");
            assert_eq!(call.id, "c4");
            assert_eq!(call.name, "core.agent_start");
            assert_eq!(call.tool_type, ToolType::Function);
            assert!(matches!(&call.arguments, CborValue::Dict(entries) if entries.len() == 1));
            assert_eq!(visible_tool_name, "agent_start");
        },
        InternalStartedRoute::Discard(m) => panic!("unexpected discard: {m}"),
    }
}

use tau::builtin::{
    builtin_handlers, normalized_skill_query_terms, BuiltinTool, BuiltinTools, CANCEL_TOOL_NAME, AGENT_START_TOOL_NAME,
    MESSAGE_TOOL_NAME, SKILL_TOOL_NAME, WAIT_TOOL_NAME,
};
use tau::tool::{BackgroundSupport, ToolExecutionMode, ToolType};

#[test]
fn builtin_specs_register_in_order_with_background_support() {
    let specs = BuiltinTools.tool_specs();
    let names: Vec<&str> = specs.iter().map(|spec| spec.name.as_str()).collect();
    assert_eq!(names, vec!["skill", "agent_start", "wait", "cancel", "message"]);
    for spec in &specs {
        assert_eq!(spec.tool_type, ToolType::Function);
        assert_eq!(spec.execution_mode, ToolExecutionMode::Shared);
        assert!(spec.enabled_by_default);
        assert!(spec.model_visible_name.is_none());
        assert!(spec.description.is_some());
    }
    assert_eq!(specs[0].background_support, None);
    assert_eq!(specs[1].background_support, Some(BackgroundSupport::Instant));
    assert_eq!(specs[2].background_support, Some(BackgroundSupport::Never));
    assert_eq!(specs[3].background_support, Some(BackgroundSupport::Never));
    assert_eq!(specs[4].background_support, Some(BackgroundSupport::Never));
}

#[test]
fn builtin_parameters_are_json_schemas_naming_required_fields() {
    let specs = BuiltinTools.tool_specs();
    let skill: serde_json::Value =
        serde_json::from_str(specs[0].parameters.as_deref().expect("skill parameters")).expect("skill schema");
    assert_eq!(skill["required"].as_array().map(|a| a.len()), Some(1));
    assert_eq!(skill["required"][0], "query");
    assert_eq!(skill["properties"]["search_content"]["type"], "boolean");
    let delegate: serde_json::Value =
        serde_json::from_str(specs[1].parameters.as_deref().expect("delegate parameters")).expect("delegate schema");
    assert_eq!(delegate["required"][0], "task_name");
    assert_eq!(delegate["required"][1], "prompt");
    assert_eq!(delegate["properties"]["execution_mode"]["enum"][2], "exclusive");
    let wait: serde_json::Value =
        serde_json::from_str(specs[2].parameters.as_deref().expect("wait parameters")).expect("wait schema");
    assert!(wait.get("required").is_none());
    assert_eq!(wait["additionalProperties"], false);
}

#[test]
fn builtin_tools_handle_only_their_names() {
    let tools = BuiltinTools;
    assert_eq!(tools.route(SKILL_TOOL_NAME), Some(BuiltinTool::Skill));
    assert_eq!(tools.route(AGENT_START_TOOL_NAME), Some(BuiltinTool::AgentStart));
    assert_eq!(tools.route(WAIT_TOOL_NAME), Some(BuiltinTool::Wait));
    assert_eq!(tools.route(MESSAGE_TOOL_NAME), Some(BuiltinTool::Message));
    assert_eq!(tools.route(CANCEL_TOOL_NAME), Some(BuiltinTool::Cancel));
    assert_eq!(tools.route("shell"), None);
    assert!(tools.handles("agent_start"));
    assert!(!tools.handles("delegate"));
    assert!(!tools.handles("Delegate"));
    assert!(!tools.handles(""));
    assert_eq!(builtin_handlers().len(), 1);
}

#[test]
fn skill_query_terms_split_on_punctuation_and_keep_hyphens() {
    assert_eq!(normalized_skill_query_terms("Rust, rust-analyzer; CARGO"), vec!["rust", "rust-analyzer", "cargo"]);
    assert_eq!(normalized_skill_query_terms("git  git/GIT"), vec!["git"]);
    assert_eq!(normalized_skill_query_terms("--lead-- -"), vec!["lead"]);
}

#[test]
fn skill_query_of_only_whitespace_has_no_terms() {
    assert!(normalized_skill_query_terms("  \n\t  ").is_empty());
    assert!(normalized_skill_query_terms("").is_empty());
}

#[test]
fn agent_start_spec_advertises_only_current_tool_name() {
    let tools = BuiltinTools;
    let names: Vec<String> = tools.tool_specs().into_iter().map(|spec| spec.name).collect();

    assert!(names.iter().any(|name| name == AGENT_START_TOOL_NAME));
    assert!(!names.iter().any(|name| name == "delegate"));
    assert!(tools.handles(AGENT_START_TOOL_NAME));
    assert!(!tools.handles("delegate"));
}

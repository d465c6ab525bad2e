use tau::calendar_tools::{calendar_tool_spec, calendar_tool_specs, TOOL_NAME};
use tau::tool::{ToolExecutionMode, ToolType};

fn schema(parameters: &Option<String>) -> serde_json::Value {
    serde_json::from_str(parameters.as_deref().expect("parameters")).expect("parameters are JSON")
}

#[test]
fn calendar_schema_hides_timezone_and_has_command_conditionals() {
    let schema = schema(&calendar_tool_spec().parameters);
    let args_properties = schema
        .pointer("/properties/args/properties")
        .and_then(serde_json::Value::as_object)
        .expect("args properties");

    assert!(!args_properties.contains_key("timezone"));
    assert!(schema.get("allOf").and_then(serde_json::Value::as_array).is_some_and(|rules| 7 < rules.len()));
}

#[test]
fn envelope_tool_is_a_disabled_function_tool() {
    let spec = calendar_tool_spec();
    assert_eq!(spec.name, TOOL_NAME);
    assert_eq!(spec.name, "calendar");
    assert_eq!(spec.tool_type, ToolType::Function);
    assert!(!spec.enabled_by_default);
    assert_eq!(spec.execution_mode, ToolExecutionMode::Shared);
    assert!(spec.background_support.is_none());
    let commands = schema(&spec.parameters).pointer("/properties/command/enum").cloned().expect("command enum");
    assert_eq!(
        commands,
        serde_json::Value::Array(
            ["list_calendars", "list_events", "read_event", "free_busy", "create_event", "update_event", "delete_event", "respond_invite"]
                .iter()
                .map(|c| serde_json::Value::String((*c).to_owned()))
                .collect()
        )
    );
}

#[test]
fn split_tools_name_each_command_with_its_arguments() {
    let specs = calendar_tool_specs();
    let names: Vec<&str> = specs.iter().map(|s| s.name.as_str()).collect();
    assert_eq!(
        names,
        vec![
            "calendar_list_calendars",
            "calendar_search",
            "calendar_get",
            "calendar_free_busy",
            "calendar_create",
            "calendar_update",
            "calendar_delete",
            "calendar_respond"
        ]
    );
    let update = schema(&specs[5].parameters);
    assert_eq!(
        update.get("required").cloned(),
        Some(serde_json::Value::Array(
            ["event_id", "field", "new_value"].iter().map(|c| serde_json::Value::String((*c).to_owned())).collect()
        ))
    );
    assert_eq!(
        specs[1].description.as_deref(),
        Some("Search/list visible calendar events in a bounded time range, with optional title filter and pagination.")
    );
    let search = schema(&specs[1].parameters);
    let props = search.get("properties").and_then(serde_json::Value::as_object).expect("properties");
    let mut keys: Vec<&str> = props.keys().map(|k| k.as_str()).collect();
    keys.sort();
    assert_eq!(keys, vec!["calendar", "cursor", "end", "limit", "start", "title"]);
    assert!(schema(&specs[0].parameters).get("properties").and_then(serde_json::Value::as_object).is_some_and(|p| p.is_empty()));
}

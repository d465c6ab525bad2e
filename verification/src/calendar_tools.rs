//! The tool specifications the calendar module registers: one tool per
//! command, named with the `calendar_` prefix, and the `calendar` envelope
//! tool that takes a command and its arguments. Parameters are JSON Schema
//! text with keys in sorted order.

use vstd::prelude::*;

use crate::text::{owned, push_str};
use crate::tool::{ToolExecutionMode, ToolSpec, ToolType};

verus! {

/// Name of the calendar envelope tool.
pub const TOOL_NAME: &'static str = "calendar";

/// Prefix of the per-command calendar tools.
pub const TOOL_PREFIX: &'static str = "calendar_";

/// Description of the calendar tools' shared envelope.
pub const ENVELOPE_DESCRIPTION: &'static str = "Controlled calendar access. Calendar ids are opaque values returned by calendar_list_calendars. For event ranges, start is optional and defaults to midnight 2 days before the current date; omitted end defaults to 7 days after start. Time values may be RFC3339 with offset, YYYY-MM-DD all-day dates, natural expressions like today/tomorrow/next week, or local YYYY-MM-DDTHH:MM:SS interpreted in the configured or system timezone. Existing event writes require event_id; ETags are handled internally.";

/// JSON Schema of the `calendar` envelope tool's input: a command and its
/// arguments, with one conditional per command that fixes which arguments
/// it takes and requires.
pub const ENVELOPE_PARAMETERS: &'static str = "{\"additionalProperties\":false,\"allOf\":[{\"if\":{\"properties\":{\"command\":{\"const\":\"list_calendars\"}}},\"then\":{\"properties\":{\"args\":{\"additionalProperties\":false,\"properties\":{},\"required\":[]}}}},{\"if\":{\"properties\":{\"command\":{\"const\":\"list_events\"}}},\"then\":{\"properties\":{\"args\":{\"additionalProperties\":false,\"properties\":{\"calendar\":{\"description\":\"Calendar id from calendar_list_calendars.\",\"type\":\"string\"},\"cursor\":{\"description\":\"Cursor returned as next_cursor by calendar_search or calendar_free_busy.\",\"type\":\"string\"},\"end\":{\"description\":\"Range or event end. For calendar_create, omitted end defaults from start.\",\"type\":\"string\"},\"limit\":{\"maximum\":100,\"minimum\":1,\"type\":\"integer\"},\"start\":{\"description\":\"Range or event start. Use RFC3339 with offset, YYYY-MM-DD, natural expressions like today/tomorrow/next week, or local YYYY-MM-DDTHH:MM:SS.\",\"type\":\"string\"},\"title\":{\"description\":\"Optional case-insensitive substring filter for event summaries.\",\"type\":\"string\"}},\"required\":[]}}}},{\"if\":{\"properties\":{\"command\":{\"const\":\"read_event\"}}},\"then\":{\"properties\":{\"args\":{\"additionalProperties\":false,\"properties\":{\"calendar\":{\"description\":\"Calendar id from calendar_list_calendars.\",\"type\":\"string\"},\"event_id\":{\"description\":\"Backend event id.\",\"type\":\"string\"}},\"required\":[\"event_id\"]}}}},{\"if\":{\"properties\":{\"command\":{\"const\":\"free_busy\"}}},\"then\":{\"properties\":{\"args\":{\"additionalProperties\":false,\"properties\":{\"calendar\":{\"description\":\"Calendar id from calendar_list_calendars.\",\"type\":\"string\"},\"cursor\":{\"description\":\"Cursor returned as next_cursor by calendar_search or calendar_free_busy.\",\"type\":\"string\"},\"end\":{\"description\":\"Range or event end. For calendar_create, omitted end defaults from start.\",\"type\":\"string\"},\"limit\":{\"maximum\":100,\"minimum\":1,\"type\":\"integer\"},\"start\":{\"description\":\"Range or event start. Use RFC3339 with offset, YYYY-MM-DD, natural expressions like today/tomorrow/next week, or local YYYY-MM-DDTHH:MM:SS.\",\"type\":\"string\"}},\"required\":[]}}}},{\"if\":{\"properties\":{\"command\":{\"const\":\"create_event\"}}},\"then\":{\"properties\":{\"args\":{\"additionalProperties\":false,\"properties\":{\"attendees\":{\"items\":{\"type\":\"string\"},\"type\":\"array\"},\"calendar\":{\"description\":\"Calendar id from calendar_list_calendars.\",\"type\":\"string\"},\"description\":{\"type\":\"string\"},\"end\":{\"description\":\"Range or event end. For calendar_create, omitted end defaults from start.\",\"type\":\"string\"},\"location\":{\"type\":\"string\"},\"start\":{\"description\":\"Range or event start. Use RFC3339 with offset, YYYY-MM-DD, natural expressions like today/tomorrow/next week, or local YYYY-MM-DDTHH:MM:SS.\",\"type\":\"string\"},\"title\":{\"description\":\"Optional case-insensitive substring filter for event summaries.\",\"type\":\"string\"}},\"required\":[\"title\",\"start\"]}}}},{\"if\":{\"properties\":{\"command\":{\"const\":\"update_event\"}}},\"then\":{\"properties\":{\"args\":{\"additionalProperties\":false,\"properties\":{\"calendar\":{\"description\":\"Calendar id from calendar_list_calendars.\",\"type\":\"string\"},\"event_id\":{\"description\":\"Backend event id.\",\"type\":\"string\"},\"field\":{\"description\":\"Event field to update. Use start to update event timing; end-only updates are not exposed because they are ambiguous.\",\"enum\":[\"title\",\"description\",\"location\",\"start\",\"attendees\"],\"type\":\"string\"},\"new_value\":{\"description\":\"New value for the selected field. For attendees, use comma-separated email addresses.\",\"type\":\"string\"}},\"required\":[\"event_id\",\"field\",\"new_value\"]}}}},{\"if\":{\"properties\":{\"command\":{\"const\":\"delete_event\"}}},\"then\":{\"properties\":{\"args\":{\"additionalProperties\":false,\"properties\":{\"calendar\":{\"description\":\"Calendar id from calendar_list_calendars.\",\"type\":\"string\"},\"event_id\":{\"description\":\"Backend event id.\",\"type\":\"string\"}},\"required\":[\"event_id\"]}}}},{\"if\":{\"properties\":{\"command\":{\"const\":\"respond_invite\"}}},\"then\":{\"properties\":{\"args\":{\"additionalProperties\":false,\"properties\":{\"calendar\":{\"description\":\"Calendar id from calendar_list_calendars.\",\"type\":\"string\"},\"event_id\":{\"description\":\"Backend event id.\",\"type\":\"string\"},\"response\":{\"enum\":[\"accepted\",\"tentative\",\"declined\"],\"type\":\"string\"}},\"required\":[\"event_id\",\"response\"]}}}}],\"properties\":{\"args\":{\"additionalProperties\":false,\"description\":\"Command-specific arguments. `calendar` is an id returned by calendar_list_calendars and may be omitted when there is only one configured target.\",\"properties\":{\"attendees\":{\"items\":{\"type\":\"string\"},\"type\":\"array\"},\"calendar\":{\"description\":\"Calendar id from calendar_list_calendars.\",\"type\":\"string\"},\"cursor\":{\"description\":\"Cursor returned as next_cursor by calendar_search or calendar_free_busy.\",\"type\":\"string\"},\"description\":{\"type\":\"string\"},\"end\":{\"description\":\"Range or event end. For calendar_create, omitted end defaults from start.\",\"type\":\"string\"},\"event_id\":{\"description\":\"Backend event id.\",\"type\":\"string\"},\"field\":{\"description\":\"Event field to update. Use start to update event timing; end-only updates are not exposed because they are ambiguous.\",\"enum\":[\"title\",\"description\",\"location\",\"start\",\"attendees\"],\"type\":\"string\"},\"limit\":{\"maximum\":100,\"minimum\":1,\"type\":\"integer\"},\"location\":{\"type\":\"string\"},\"new_value\":{\"description\":\"New value for the selected field. For attendees, use comma-separated email addresses.\",\"type\":\"string\"},\"response\":{\"enum\":[\"accepted\",\"tentative\",\"declined\"],\"type\":\"string\"},\"start\":{\"description\":\"Range or event start. Use RFC3339 with offset, YYYY-MM-DD, natural expressions like today/tomorrow/next week, or local YYYY-MM-DDTHH:MM:SS.\",\"type\":\"string\"},\"title\":{\"description\":\"Optional case-insensitive substring filter for event summaries.\",\"type\":\"string\"}},\"type\":\"object\"},\"command\":{\"description\":\"Calendar operation to perform.\",\"enum\":[\"list_calendars\",\"list_events\",\"read_event\",\"free_busy\",\"create_event\",\"update_event\",\"delete_event\",\"respond_invite\"],\"type\":\"string\"}},\"required\":[\"command\"],\"type\":\"object\"}";

/// Description of the `calendar_list_calendars` tool.
pub const LIST_CALENDARS_DESCRIPTION: &'static str = "List configured calendars and return calendar ids for other calendar tools.";

/// JSON Schema of the `calendar_list_calendars` tool's input.
pub const LIST_CALENDARS_PARAMETERS: &'static str = "{\"additionalProperties\":false,\"description\":\"No arguments.\",\"properties\":{},\"required\":[],\"type\":\"object\"}";

/// Description of the `calendar_search` tool.
pub const SEARCH_DESCRIPTION: &'static str = "Search/list visible calendar events in a bounded time range, with optional title filter and pagination.";

/// JSON Schema of the `calendar_search` tool's input.
pub const SEARCH_PARAMETERS: &'static str = "{\"additionalProperties\":false,\"description\":\"Range arguments. Omit calendar only when there is one configured target.\",\"properties\":{\"calendar\":{\"description\":\"Calendar id from calendar_list_calendars.\",\"type\":\"string\"},\"cursor\":{\"description\":\"Cursor returned as next_cursor by calendar_search or calendar_free_busy.\",\"type\":\"string\"},\"end\":{\"description\":\"Range or event end. For calendar_create, omitted end defaults from start.\",\"type\":\"string\"},\"limit\":{\"maximum\":100,\"minimum\":1,\"type\":\"integer\"},\"start\":{\"description\":\"Range or event start. Use RFC3339 with offset, YYYY-MM-DD, natural expressions like today/tomorrow/next week, or local YYYY-MM-DDTHH:MM:SS.\",\"type\":\"string\"},\"title\":{\"description\":\"Optional case-insensitive substring filter for event summaries.\",\"type\":\"string\"}},\"required\":[],\"type\":\"object\"}";

/// Description of the `calendar_get` tool.
pub const GET_DESCRIPTION: &'static str = "Get one calendar event by calendar id and backend event id.";

/// JSON Schema of the `calendar_get` tool's input.
pub const GET_PARAMETERS: &'static str = "{\"additionalProperties\":false,\"description\":\"Calendar event arguments. Omit calendar only when there is one configured target.\",\"properties\":{\"calendar\":{\"description\":\"Calendar id from calendar_list_calendars.\",\"type\":\"string\"},\"event_id\":{\"description\":\"Backend event id.\",\"type\":\"string\"}},\"required\":[\"event_id\"],\"type\":\"object\"}";

/// Description of the `calendar_free_busy` tool.
pub const FREE_BUSY_DESCRIPTION: &'static str = "Return busy blocks without event details in a bounded time range.";

/// JSON Schema of the `calendar_free_busy` tool's input.
pub const FREE_BUSY_PARAMETERS: &'static str = "{\"additionalProperties\":false,\"description\":\"Range arguments. Omit calendar only when there is one configured target.\",\"properties\":{\"calendar\":{\"description\":\"Calendar id from calendar_list_calendars.\",\"type\":\"string\"},\"cursor\":{\"description\":\"Cursor returned as next_cursor by calendar_search or calendar_free_busy.\",\"type\":\"string\"},\"end\":{\"description\":\"Range or event end. For calendar_create, omitted end defaults from start.\",\"type\":\"string\"},\"limit\":{\"maximum\":100,\"minimum\":1,\"type\":\"integer\"},\"start\":{\"description\":\"Range or event start. Use RFC3339 with offset, YYYY-MM-DD, natural expressions like today/tomorrow/next week, or local YYYY-MM-DDTHH:MM:SS.\",\"type\":\"string\"}},\"required\":[],\"type\":\"object\"}";

/// Description of the `calendar_create` tool.
pub const CREATE_DESCRIPTION: &'static str = "Create a new calendar event. Writes may require user approval.";

/// JSON Schema of the `calendar_create` tool's input.
pub const CREATE_PARAMETERS: &'static str = "{\"additionalProperties\":false,\"description\":\"Calendar event arguments. Omit calendar only when there is one configured target.\",\"properties\":{\"attendees\":{\"items\":{\"type\":\"string\"},\"type\":\"array\"},\"calendar\":{\"description\":\"Calendar id from calendar_list_calendars.\",\"type\":\"string\"},\"description\":{\"type\":\"string\"},\"end\":{\"description\":\"Range or event end. For calendar_create, omitted end defaults from start.\",\"type\":\"string\"},\"location\":{\"type\":\"string\"},\"start\":{\"description\":\"Range or event start. Use RFC3339 with offset, YYYY-MM-DD, natural expressions like today/tomorrow/next week, or local YYYY-MM-DDTHH:MM:SS.\",\"type\":\"string\"},\"title\":{\"description\":\"Optional case-insensitive substring filter for event summaries.\",\"type\":\"string\"}},\"required\":[\"title\",\"start\"],\"type\":\"object\"}";

/// Description of the `calendar_update` tool.
pub const UPDATE_DESCRIPTION: &'static str = "Update one field of an existing calendar event by event id. Writes may require user approval.";

/// JSON Schema of the `calendar_update` tool's input.
pub const UPDATE_PARAMETERS: &'static str = "{\"additionalProperties\":false,\"description\":\"Calendar event arguments. Omit calendar only when there is one configured target.\",\"properties\":{\"calendar\":{\"description\":\"Calendar id from calendar_list_calendars.\",\"type\":\"string\"},\"event_id\":{\"description\":\"Backend event id.\",\"type\":\"string\"},\"field\":{\"description\":\"Event field to update. Use start to update event timing; end-only updates are not exposed because they are ambiguous.\",\"enum\":[\"title\",\"description\",\"location\",\"start\",\"attendees\"],\"type\":\"string\"},\"new_value\":{\"description\":\"New value for the selected field. For attendees, use comma-separated email addresses.\",\"type\":\"string\"}},\"required\":[\"event_id\",\"field\",\"new_value\"],\"type\":\"object\"}";

/// Description of the `calendar_delete` tool.
pub const DELETE_DESCRIPTION: &'static str = "Delete or cancel an existing calendar event by event id. Writes may require user approval.";

/// JSON Schema of the `calendar_delete` tool's input.
pub const DELETE_PARAMETERS: &'static str = "{\"additionalProperties\":false,\"description\":\"Calendar event arguments. Omit calendar only when there is one configured target.\",\"properties\":{\"calendar\":{\"description\":\"Calendar id from calendar_list_calendars.\",\"type\":\"string\"},\"event_id\":{\"description\":\"Backend event id.\",\"type\":\"string\"}},\"required\":[\"event_id\"],\"type\":\"object\"}";

/// Description of the `calendar_respond` tool.
pub const RESPOND_DESCRIPTION: &'static str = "Accept, tentatively accept, or decline a calendar invitation. Writes may require user approval.";

/// JSON Schema of the `calendar_respond` tool's input.
pub const RESPOND_PARAMETERS: &'static str = "{\"additionalProperties\":false,\"description\":\"Calendar event arguments. Omit calendar only when there is one configured target.\",\"properties\":{\"calendar\":{\"description\":\"Calendar id from calendar_list_calendars.\",\"type\":\"string\"},\"event_id\":{\"description\":\"Backend event id.\",\"type\":\"string\"},\"response\":{\"enum\":[\"accepted\",\"tentative\",\"declined\"],\"type\":\"string\"}},\"required\":[\"event_id\",\"response\"],\"type\":\"object\"}";

/// `s` is a calendar tool named `name`: a function tool with the given
/// description and parameters, off until enabled, running alongside other
/// calls, without background support.
pub open spec fn calendar_tool(s: ToolSpec, name: Seq<char>, description: Seq<char>, parameters: Seq<char>) -> bool {
    &&& s.name@ == name
    &&& s.model_visible_name is None
    &&& s.description matches Some(d) && d@ == description
    &&& s.tool_type == ToolType::Function
    &&& s.parameters matches Some(p) && p@ == parameters
    &&& !s.enabled_by_default
    &&& s.execution_mode == ToolExecutionMode::Shared
    &&& s.background_support is None
}

/// The per-command tools in registration order: name suffix, description,
/// parameters.
pub open spec fn command_tool(i: int) -> (Seq<char>, Seq<char>, Seq<char>) {
    if i == 0 {
        ("list_calendars"@, LIST_CALENDARS_DESCRIPTION@, LIST_CALENDARS_PARAMETERS@)
    } else if i == 1 {
        ("search"@, SEARCH_DESCRIPTION@, SEARCH_PARAMETERS@)
    } else if i == 2 {
        ("get"@, GET_DESCRIPTION@, GET_PARAMETERS@)
    } else if i == 3 {
        ("free_busy"@, FREE_BUSY_DESCRIPTION@, FREE_BUSY_PARAMETERS@)
    } else if i == 4 {
        ("create"@, CREATE_DESCRIPTION@, CREATE_PARAMETERS@)
    } else if i == 5 {
        ("update"@, UPDATE_DESCRIPTION@, UPDATE_PARAMETERS@)
    } else if i == 6 {
        ("delete"@, DELETE_DESCRIPTION@, DELETE_PARAMETERS@)
    } else {
        ("respond"@, RESPOND_DESCRIPTION@, RESPOND_PARAMETERS@)
    }
}

fn calendar_spec(name: String, description: &str, parameters: &str) -> (res: ToolSpec)
    ensures
        calendar_tool(res, name@, description@, parameters@),
{
    ToolSpec {
        name,
        model_visible_name: None,
        description: Some(owned(description)),
        tool_type: ToolType::Function,
        parameters: Some(owned(parameters)),
        enabled_by_default: false,
        execution_mode: ToolExecutionMode::Shared,
        background_support: None,
    }
}

fn command_tool_spec(suffix: &str, description: &str, parameters: &str) -> (res: ToolSpec)
    ensures
        calendar_tool(res, TOOL_PREFIX@ + suffix@, description@, parameters@),
{
    let mut name = owned(TOOL_PREFIX);
    push_str(&mut name, suffix);
    calendar_spec(name, description, parameters)
}

/// The model-visible per-command calendar tools.
pub fn calendar_tool_specs() -> (res: Vec<ToolSpec>)
    ensures
        res@.len() == 8,
        forall|i: int| 0 <= i < 8 ==> calendar_tool(#[trigger] res@[i], TOOL_PREFIX@ + command_tool(i).0, command_tool(i).1, command_tool(i).2),
{
    let mut specs: Vec<ToolSpec> = Vec::new();
    specs.push(command_tool_spec("list_calendars", LIST_CALENDARS_DESCRIPTION, LIST_CALENDARS_PARAMETERS));
    specs.push(command_tool_spec("search", SEARCH_DESCRIPTION, SEARCH_PARAMETERS));
    specs.push(command_tool_spec("get", GET_DESCRIPTION, GET_PARAMETERS));
    specs.push(command_tool_spec("free_busy", FREE_BUSY_DESCRIPTION, FREE_BUSY_PARAMETERS));
    specs.push(command_tool_spec("create", CREATE_DESCRIPTION, CREATE_PARAMETERS));
    specs.push(command_tool_spec("update", UPDATE_DESCRIPTION, UPDATE_PARAMETERS));
    specs.push(command_tool_spec("delete", DELETE_DESCRIPTION, DELETE_PARAMETERS));
    specs.push(command_tool_spec("respond", RESPOND_DESCRIPTION, RESPOND_PARAMETERS));
    specs
}

/// The `calendar` envelope tool.
pub fn calendar_tool_spec() -> (res: ToolSpec)
    ensures
        calendar_tool(res, TOOL_NAME@, ENVELOPE_DESCRIPTION@, ENVELOPE_PARAMETERS@),
{
    calendar_spec(owned(TOOL_NAME), ENVELOPE_DESCRIPTION, ENVELOPE_PARAMETERS)
}

} // verus!

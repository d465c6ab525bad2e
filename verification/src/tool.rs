//! Tool-call protocol records shared by the extensions: tool
//! specifications, invocations, and the result or error each call ends in.

use vstd::prelude::*;

use crate::cbor::CborValue;

verus! {

/// Kind of tool call.
#[derive(Clone, Copy, Debug, PartialEq, Eq, Structural)]
pub enum ToolType {
    /// JSON-schema function tool.
    Function,
    /// Freeform custom tool.
    Custom,
}

/// How a tool call may run alongside other calls.
#[derive(Clone, Copy, Debug, PartialEq, Eq, Structural)]
pub enum ToolExecutionMode {
    Shared,
    Update,
    Exclusive,
}

/// Whether a tool call may move to the background.
#[derive(Clone, Copy, Debug, PartialEq, Eq, Structural)]
pub enum BackgroundSupport {
    Instant,
    Never,
}

/// A tool an extension registers with the harness.
///
/// `parameters` holds the JSON Schema of the tool's input as JSON text.
#[derive(Debug)]
pub struct ToolSpec {
    pub name: String,
    pub model_visible_name: Option<String>,
    pub description: Option<String>,
    pub tool_type: ToolType,
    pub parameters: Option<String>,
    pub enabled_by_default: bool,
    pub execution_mode: ToolExecutionMode,
    pub background_support: Option<BackgroundSupport>,
}

/// Who the prompt behind a tool call came from.
#[derive(Clone, Copy, Debug, PartialEq, Eq, Structural)]
pub enum PromptOriginator {
    /// The user typed it.
    User,
}

/// Whether a tool result ends its call or stands in while the call runs on
/// in the background.
#[derive(Clone, Copy, Debug, PartialEq, Eq, Structural)]
pub enum ToolResultKind {
    Final,
    BackgroundPlaceholder,
}

/// A tool call routed to the extension that owns the tool.
#[derive(Debug)]
pub struct ToolStarted {
    pub call_id: String,
    pub tool_name: String,
    pub arguments: CborValue,
    pub originator: PromptOriginator,
}

/// Display status of a tool call.
#[derive(Clone, Copy, Debug, PartialEq, Eq, Structural)]
pub enum ToolDisplayStatus {
    InProgress,
    Success,
    Error,
}

/// Size statistics the UI shows for a tool's output.
#[derive(Clone, Copy, Debug, PartialEq, Eq, Structural)]
pub struct ToolUseStats {
    pub matches: Option<u64>,
    pub lines: Option<u64>,
    pub bytes: Option<u64>,
}

/// What the UI shows for a tool call.
#[derive(Debug)]
pub struct ToolDisplay {
    pub status: ToolDisplayStatus,
    /// The call's arguments as shown next to the tool name.
    pub args: String,
    pub status_text: String,
    pub stats: ToolUseStats,
    /// Short extra labels shown beside the status.
    pub info_chips: Vec<String>,
}

/// No statistics.
pub open spec fn no_stats() -> ToolUseStats {
    ToolUseStats { matches: None, lines: None, bytes: None }
}

/// The event that ends one tool call.
#[derive(Debug)]
pub enum ToolOutcome {
    /// The call produced a result payload.
    Result {
        call_id: String,
        tool_name: String,
        tool_type: ToolType,
        result: CborValue,
        kind: ToolResultKind,
        display: Option<ToolDisplay>,
        originator: PromptOriginator,
    },
    /// The call failed.
    Error {
        call_id: String,
        tool_name: String,
        tool_type: ToolType,
        message: String,
        details: Option<CborValue>,
        display: Option<ToolDisplay>,
        originator: PromptOriginator,
    },
}

/// `res` is a final result of the function call `invoke`, answered for
/// `originator`, with payload view `result` and display `display`.
pub open spec fn final_result_of(res: ToolOutcome, invoke: ToolStarted, originator: PromptOriginator) -> bool {
    res matches ToolOutcome::Result { call_id, tool_name, tool_type, kind, originator: o, .. }
        && call_id@ == invoke.call_id@ && tool_name@ == invoke.tool_name@
        && tool_type == ToolType::Function && kind == ToolResultKind::Final && o == originator
}

/// `res` is an error of the function call `invoke`, answered for
/// `originator`, with message view `message`.
pub open spec fn error_of(res: ToolOutcome, invoke: ToolStarted, originator: PromptOriginator, message: Seq<char>) -> bool {
    res matches ToolOutcome::Error { call_id, tool_name, tool_type, message: m, originator: o, .. }
        && call_id@ == invoke.call_id@ && tool_name@ == invoke.tool_name@
        && tool_type == ToolType::Function && m@ == message && o == originator
}

/// A display record with the given status and status text, no arguments,
/// no statistics and no chips.
pub fn display(status: ToolDisplayStatus, status_text: &str) -> (res: ToolDisplay)
    ensures
        res.status == status,
        res.status_text@ == status_text@,
        res.args@ == Seq::<char>::empty(),
        res.stats == no_stats(),
        res.info_chips@.len() == 0,
{
    ToolDisplay {
        status,
        args: String::new(),
        status_text: crate::text::owned(status_text),
        stats: ToolUseStats { matches: None, lines: None, bytes: None },
        info_chips: Vec::new(),
    }
}

/// The display of a successful call with arguments `args`: no status text,
/// statistics or chips.
pub fn ok_display(args: String) -> (res: ToolDisplay)
    ensures
        res.status == ToolDisplayStatus::Success,
        res.args@ == args@,
        res.status_text@ == Seq::<char>::empty(),
        res.stats == no_stats(),
        res.info_chips@.len() == 0,
{
    ToolDisplay {
        status: ToolDisplayStatus::Success,
        args,
        status_text: String::new(),
        stats: ToolUseStats { matches: None, lines: None, bytes: None },
        info_chips: Vec::new(),
    }
}

} // verus!

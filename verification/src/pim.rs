//! The personal-information extension: the email and calendar modules
//! behind one process, and which of them answers a started tool call.
//!
//! The harness event stream also carries starts of tools that other
//! extensions own; those are left alone instead of being answered with an
//! error that would race with the owner's result.

use vstd::prelude::*;

use crate::cbor::CborValue;
use crate::proto::SecretValue;
use crate::text::str_eq;
use crate::tool::{ToolOutcome, ToolStarted};

verus! {

/// Which module owns a tool.
#[derive(Clone, Copy, Debug, PartialEq, Eq, Structural)]
pub enum PimTool {
    Email,
    Calendar,
    /// A tool of another extension.
    Foreign,
}

/// The module that owns the tool named `name`.
pub open spec fn owner_of(name: Seq<char>) -> PimTool {
    if name == crate::email::TOOL_NAME@ {
        PimTool::Email
    } else if name == crate::calendar_tools::TOOL_NAME@ {
        PimTool::Calendar
    } else {
        PimTool::Foreign
    }
}

/// The module that owns the tool named `tool_name`.
pub fn pim_tool_owner(tool_name: &str) -> (res: PimTool)
    ensures
        res == owner_of(tool_name@),
{
    if str_eq(tool_name, crate::email::TOOL_NAME) {
        PimTool::Email
    } else if str_eq(tool_name, crate::calendar_tools::TOOL_NAME) {
        PimTool::Calendar
    } else {
        PimTool::Foreign
    }
}

/// `res` ends the call `invoke`: a result or an error carrying its call id
/// and tool name.
pub open spec fn ends_call(res: ToolOutcome, invoke: ToolStarted) -> bool {
    ||| res matches ToolOutcome::Result { call_id, tool_name, .. } && call_id@ == invoke.call_id@ && tool_name@ == invoke.tool_name@
    ||| res matches ToolOutcome::Error { call_id, tool_name, .. } && call_id@ == invoke.call_id@ && tool_name@ == invoke.tool_name@
}

/// Runtime state of the extension: one state per module.
pub struct PimRuntime {
    pub email: crate::email::RuntimeState,
    pub calendar: crate::calendar::RuntimeState,
}

impl PimRuntime {
    /// Both modules unconfigured.
    pub fn new() -> (res: Self)
        ensures
            res.email.config_state is Unconfigured,
            res.calendar.config_state is Unconfigured,
    {
        PimRuntime { email: crate::email::RuntimeState::new(), calendar: crate::calendar::RuntimeState::new() }
    }

    /// Answers a started tool call this extension owns, with the module
    /// that owns it (`engine` runs the calendar's configured engine), and
    /// leaves a call of another extension's tool unanswered.
    pub fn dispatch_tool<F>(&self, invoke: ToolStarted, engine: F) -> (res: Option<ToolOutcome>)
        where
            F: FnOnce(&crate::calendar::ValidatedConfig, &Vec<(String, SecretValue)>, &CborValue) -> Result<String, String>,
        requires
            forall|c: &crate::calendar::ValidatedConfig, s: &Vec<(String, SecretValue)>, a: &CborValue| engine.requires((c, s, a)),
        ensures
            owner_of(invoke.tool_name@) == PimTool::Foreign <==> res is None,
            res matches Some(o) ==> ends_call(o, invoke),
            owner_of(invoke.tool_name@) == PimTool::Email ==> (res matches Some(o)
                && crate::email::dispatched(self.email.config_state, invoke, o)),
            owner_of(invoke.tool_name@) == PimTool::Calendar ==> (res matches Some(o)
                && crate::calendar::dispatched(self.calendar.config_state, invoke, engine, o)),
    {
        match pim_tool_owner(invoke.tool_name.as_str()) {
            PimTool::Email => Some(self.email.dispatch(invoke)),
            PimTool::Calendar => Some(self.calendar.dispatch(invoke, engine)),
            PimTool::Foreign => None,
        }
    }
}

} // verus!

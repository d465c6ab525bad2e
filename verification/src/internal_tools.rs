//! Routing of `tool.started` events for tools that run inside the harness
//! process.
//!
//! The harness keeps, per call id, the conversation the call belongs to and
//! the pending tool it announced. When the call starts, the first
//! installed handler that owns the internal tool runs it; otherwise the
//! event is dropped with an info message. Which handlers own a tool is
//! asked of the handlers themselves; the routing takes their answers.

use vstd::prelude::*;

use crate::cbor::CborValue;
use crate::text::{owned, push_str};
use crate::tool::{ToolStarted, ToolType};

verus! {

/// A tool call the harness announced and whose start it awaits.
pub struct PendingTool {
    /// The tool name the model saw.
    pub name: String,
    /// The internal tool that runs the call.
    pub internal_name: String,
    pub tool_type: ToolType,
}

/// A tool call handed to an internal tool handler.
pub struct AgentToolCall {
    pub id: String,
    /// The internal tool name.
    pub name: String,
    pub tool_type: ToolType,
    pub arguments: CborValue,
}

/// What becomes of a started internal tool call.
pub enum InternalStartedRoute {
    /// The event is dropped; the harness reports the message as info.
    Discard(String),
    /// Handler number `handler` runs `call` in `conversation`, under the
    /// tool name the model saw.
    Handle { handler: usize, conversation: String, call: AgentToolCall, visible_tool_name: String },
}

/// Routes a started internal tool call. `conversation` and `pending` are
/// what the harness recorded for the call id, and `handles[i]` is whether
/// installed handler `i` owns the pending tool's internal name. Without a
/// conversation or a pending tool, or with no handler that owns the tool,
/// the event is discarded; otherwise the first owning handler gets the
/// call, with the started call's id and arguments and the pending tool's
/// internal name and type.
pub fn route_internal_tool_started(
    conversation: Option<String>,
    pending: Option<PendingTool>,
    handles: &Vec<bool>,
    started: ToolStarted,
) -> (res: InternalStartedRoute)
    ensures
        conversation is None ==> (res matches InternalStartedRoute::Discard(m)
            && m@ == "discarding internal tool.started for unknown call_id="@ + started.call_id@),
        conversation is Some && pending is None ==> (res matches InternalStartedRoute::Discard(m)
            && m@ == "discarding internal tool.started without pending tool for call_id="@ + started.call_id@),
        conversation is Some && pending is Some && (forall|i: int| 0 <= i < handles@.len() ==> !#[trigger] handles@[i])
            ==> (res matches InternalStartedRoute::Discard(m)
            && m@ == "discarding internal tool.started for unhandled internal tool `"@ + pending->0.internal_name@ + "`"@),
        conversation is Some && pending is Some && (exists|i: int| 0 <= i < handles@.len() && #[trigger] handles@[i])
            ==> (res matches InternalStartedRoute::Handle { handler, conversation: cid, call, visible_tool_name } && {
            &&& handler < handles@.len()
            &&& handles@[handler as int]
            &&& forall|j: int| 0 <= j < handler ==> !#[trigger] handles@[j]
            &&& cid@ == conversation->0@
            &&& call.id@ == started.call_id@
            &&& call.name@ == pending->0.internal_name@
            &&& call.tool_type == pending->0.tool_type
            &&& call.arguments@ == started.arguments@
            &&& visible_tool_name@ == pending->0.name@
        }),
{
    let cid = match conversation {
        Some(c) => c,
        None => {
            let mut m = owned("discarding internal tool.started for unknown call_id=");
            push_str(&mut m, started.call_id.as_str());
            return InternalStartedRoute::Discard(m);
        },
    };
    let p = match pending {
        Some(p) => p,
        None => {
            let mut m = owned("discarding internal tool.started without pending tool for call_id=");
            push_str(&mut m, started.call_id.as_str());
            return InternalStartedRoute::Discard(m);
        },
    };
    let mut i: usize = 0;
    while i < handles.len()
        invariant
            i <= handles@.len(),
            forall|j: int| 0 <= j < i ==> !#[trigger] handles@[j],
            conversation == Some(cid),
            pending == Some(p),
        decreases handles@.len() - i,
    {
        if handles[i] {
            let call = AgentToolCall {
                id: started.call_id,
                name: p.internal_name,
                tool_type: p.tool_type,
                arguments: started.arguments,
            };
            return InternalStartedRoute::Handle { handler: i, conversation: cid, call, visible_tool_name: p.name };
        }
        i = i + 1;
    }
    let mut m = owned("discarding internal tool.started for unhandled internal tool `");
    push_str(&mut m, p.internal_name.as_str());
    push_str(&mut m, "`");
    InternalStartedRoute::Discard(m)
}

} // verus!

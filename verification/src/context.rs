//! Provider context items: message roles, tool-result statuses, and the
//! provider-facing text form of tool responses.

use vstd::prelude::*;

use crate::tool::ToolType;
use crate::cbor::{lemma_view_entries, lemma_view_entries_take, lemma_view_items, lemma_view_items_take, view_entries, view_items, CborValue, CborView};
use crate::text::{contains_char, decimal, join, join_strings, owned, push_char, push_decimal, push_signed_decimal, push_str, signed_decimal, str_eq, views};

verus! {

broadcast use vstd::string::group_string_axioms;

/// Role of a participant in one message item.
#[derive(Clone, Copy, Debug, PartialEq, Eq, Structural)]
pub enum ContextRole {
    System,
    Developer,
    User,
    Assistant,
}

/// One content part inside a message item.
#[derive(Debug)]
pub enum ContentPart {
    /// Plain UTF-8 text content.
    Text { text: String },
}

/// Assistant-message phase label on assistant `message` items.
#[derive(Clone, Copy, Debug, PartialEq, Eq, Structural)]
pub enum MessagePhase {
    /// Intermediate progress / preliminary notes.
    Commentary,
    /// Final completed response.
    FinalAnswer,
}

impl MessagePhase {
    /// Wire string accepted by the Responses API on assistant `message` items.
    pub fn as_openai_wire(self) -> (res: &'static str)
        ensures
            res@ == (match self {
                MessagePhase::Commentary => "commentary"@,
                MessagePhase::FinalAnswer => "final_answer"@,
            }),
    {
        match self {
            MessagePhase::Commentary => "commentary",
            MessagePhase::FinalAnswer => "final_answer",
        }
    }
}

/// Opaque provider-owned payload preserved without interpretation.
#[derive(Debug)]
pub struct OpaqueProviderItem(pub CborValue);

/// One message item in the prompt or assistant output timeline.
#[derive(Debug)]
pub struct MessageItem {
    pub role: ContextRole,
    pub content: Vec<ContentPart>,
    pub phase: Option<MessagePhase>,
}

/// One tool call item in the prompt or assistant output timeline.
#[derive(Debug)]
pub struct ToolCallItem {
    /// Stable tool-call identifier.
    pub call_id: String,
    /// Tool name requested by the assistant.
    pub name: String,
    /// Kind of tool call.
    pub tool_type: ToolType,
    /// Tool arguments.
    pub arguments: CborValue,
}

/// Terminal status for one tool result item.
#[derive(Debug)]
pub enum ToolResultStatus {
    Success,
    Error { message: String },
    Cancelled { reason: String },
}

/// One rendered header in the text sent to a provider for a tool response.
#[derive(Debug)]
pub struct ToolResponseHeader {
    pub key: String,
    pub value: String,
}

/// Provider-facing text form of a tool response: header lines in
/// `<key>: <value>` form, an empty line, then the tool-specific body.
#[derive(Debug)]
pub struct ToolResponse {
    /// The raw tool payload, kept as it came.
    pub raw: CborValue,
    /// Structured headers rendered before the response body.
    pub headers: Vec<ToolResponseHeader>,
    /// Tool-specific response text rendered after the blank separator.
    pub body: String,
}

// ---------------------------------------------------------------------------
// Specification of the text form
// ---------------------------------------------------------------------------

/// Keys whose values form the response body directly.
pub open spec fn is_body_key(key: Seq<char>) -> bool {
    key == "output"@ || key == "line-numbered content"@
}

/// The text of a byte string: `<N bytes>`.
pub open spec fn bytes_text(n: nat) -> Seq<char> {
    seq!['<'] + decimal(n) + " bytes>"@
}

/// The provider-facing text of a CBOR value.
pub open spec fn response_text(v: CborView) -> Seq<char>
    decreases v, 0nat,
{
    match v {
        CborView::Null => Seq::empty(),
        CborView::Bool(b) => if b { "true"@ } else { "false"@ },
        CborView::Integer(i) => signed_decimal(i),
        CborView::Text(s) => s,
        CborView::Bytes(b) => bytes_text(b.len()),
        CborView::Array(items) => join(items_text(items), seq!['\n']),
        CborView::Dict(e) => render_parts(map_headers(e), map_body(e)),
        CborView::Tag(_, inner) => response_text(*inner),
    }
}

/// The texts of a list of values.
pub open spec fn items_text(items: Seq<CborView>) -> Seq<Seq<char>>
    decreases items, 1nat,
{
    if items.len() == 0 {
        Seq::empty()
    } else {
        proof {
            broadcast use vstd::seq::axiom_seq_subrange_decreases, vstd::seq::axiom_seq_index_decreases;
            assert(decreases_to!(items => items[items.len() - 1]));
            assert(decreases_to!(items => items.subrange(0, items.len() - 1)));
        }
        items_text(items.subrange(0, items.len() - 1)).push(response_text(items[items.len() - 1]))
    }
}

/// The headers a map contributes: entries whose key is not a body key and
/// whose value text has no line break, in order.
pub open spec fn map_headers(e: Seq<(CborView, CborView)>) -> Seq<(Seq<char>, Seq<char>)>
    decreases e, 1nat,
{
    if e.len() == 0 {
        Seq::empty()
    } else {
        proof {
            broadcast use vstd::seq::axiom_seq_subrange_decreases, vstd::seq::axiom_seq_index_decreases;
            assert(decreases_to!(e => e[e.len() - 1]));
            assert(decreases_to!(e[e.len() - 1] => e[e.len() - 1].0));
            assert(decreases_to!(e[e.len() - 1] => e[e.len() - 1].1));
            assert(decreases_to!(e => e.subrange(0, e.len() - 1)));
        }
        let rest = map_headers(e.subrange(0, e.len() - 1));
        let key = response_text(e[e.len() - 1].0);
        let value = response_text(e[e.len() - 1].1);
        if !is_body_key(key) && !value.contains('\n') {
            rest.push((key, value))
        } else {
            rest
        }
    }
}

/// The body parts a map contributes, in order: a body key's value as is,
/// and `key:\n value` for values that span lines.
pub open spec fn map_body(e: Seq<(CborView, CborView)>) -> Seq<Seq<char>>
    decreases e, 1nat,
{
    if e.len() == 0 {
        Seq::empty()
    } else {
        proof {
            broadcast use vstd::seq::axiom_seq_subrange_decreases, vstd::seq::axiom_seq_index_decreases;
            assert(decreases_to!(e => e[e.len() - 1]));
            assert(decreases_to!(e[e.len() - 1] => e[e.len() - 1].0));
            assert(decreases_to!(e[e.len() - 1] => e[e.len() - 1].1));
            assert(decreases_to!(e => e.subrange(0, e.len() - 1)));
        }
        let rest = map_body(e.subrange(0, e.len() - 1));
        let key = response_text(e[e.len() - 1].0);
        let value = response_text(e[e.len() - 1].1);
        if is_body_key(key) {
            rest.push(value)
        } else if value.contains('\n') {
            rest.push(key + ":\n"@ + value)
        } else {
            rest
        }
    }
}

/// The header lines `key: value\n`, in order.
pub open spec fn header_lines(headers: Seq<(Seq<char>, Seq<char>)>) -> Seq<char>
    decreases headers.len(),
{
    if headers.len() == 0 {
        Seq::empty()
    } else {
        header_lines(headers.drop_last()) + headers.last().0 + ": "@ + headers.last().1 + seq!['\n']
    }
}

/// Header lines, a blank line when there are headers, then the body parts
/// joined by line breaks.
pub open spec fn render_parts(headers: Seq<(Seq<char>, Seq<char>)>, body: Seq<Seq<char>>) -> Seq<char> {
    render_text(headers, join(body, seq!['\n']))
}

/// Header lines, a blank line when there are headers, then `body`.
pub open spec fn render_text(headers: Seq<(Seq<char>, Seq<char>)>, body: Seq<char>) -> Seq<char> {
    header_lines(headers) + (if headers.len() > 0 { seq!['\n'] } else { Seq::empty() }) + body
}

pub open spec fn header_views(h: Seq<ToolResponseHeader>) -> Seq<(Seq<char>, Seq<char>)> {
    Seq::new(h.len(), |i: int| (h[i].key@, h[i].value@))
}

/// Whether `r` is the normalized form of the raw value `v`: it keeps `v`;
/// a map becomes its header entries and its body parts joined by line
/// breaks; any other value becomes a body of its text, with no headers.
pub open spec fn normalized_from(r: ToolResponse, v: CborView) -> bool {
    &&& r.raw@ == v
    &&& match v {
        CborView::Dict(e) => header_views(r.headers@) == map_headers(e) && r.body@ == join(map_body(e), seq!['\n']),
        other => r.headers@.len() == 0 && r.body@ == response_text(other),
    }
}

/// Rendering the normalized form of a raw tool result gives the same text
/// as converting the raw value to text directly.
pub proof fn law_normalized_render_is_response_text(r: ToolResponse, v: CborView)
    requires
        normalized_from(r, v),
    ensures
        r.rendered() == response_text(v),
{
    match v {
        CborView::Dict(e) => {},
        _ => {
            assert(header_views(r.headers@) =~= Seq::empty());
            assert(header_lines(header_views(r.headers@)) =~= Seq::empty());
            assert(r.rendered() =~= r.body@);
        },
    }
}

impl ToolResponse {
    /// The text this response renders to.
    pub open spec fn rendered(&self) -> Seq<char> {
        render_text(header_views(self.headers@), self.body@)
    }
}

// ---------------------------------------------------------------------------
// Executable text form
// ---------------------------------------------------------------------------

/// Appends `<N bytes>`.
fn push_bytes_text(s: &mut String, n: usize)
    ensures
        final(s)@ == old(s)@ + bytes_text(n as nat),
{
    push_char(s, '<');
    push_decimal(s, n as u128);
    push_str(s, " bytes>");
    assert(final(s)@ =~= old(s)@ + bytes_text(n as nat));
}

/// The provider-facing text of a CBOR value.
pub fn cbor_tool_response_text(value: &CborValue) -> (res: String)
    ensures
        res@ == response_text(value@),
    decreases value, 0nat,
{
    match value {
        CborValue::Null => String::new(),
        CborValue::Bool(b) => if *b { owned("true") } else { owned("false") },
        CborValue::Integer(i) => {
            let mut s = String::new();
            push_signed_decimal(&mut s, *i);
            assert(s@ =~= signed_decimal(*i as int));
            s
        },
        CborValue::Text(t) => t.clone(),
        CborValue::Bytes(b) => {
            let mut s = String::new();
            push_bytes_text(&mut s, b.len());
            assert(s@ =~= bytes_text(b@.len()));
            s
        },
        CborValue::Array(items) => {
            let texts = items_texts(items);
            proof { reveal_strlit("\n"); }
            assert("\n"@ =~= seq!['\n']);
            join_strings(&texts, "\n")
        },
        CborValue::Dict(entries) => {
            let (headers, body_parts) = map_parts(entries);
            proof { reveal_strlit("\n"); }
            assert("\n"@ =~= seq!['\n']);
            let body = join_strings(&body_parts, "\n");
            render_headers_and_body(&headers, body.as_str())
        },
        CborValue::Tag(_, inner) => cbor_tool_response_text(inner),
    }
}

fn items_texts(items: &Vec<CborValue>) -> (res: Vec<String>)
    ensures
        views(res@) == items_text(view_items(items@)),
    decreases items, 1nat,
{
    let mut out: Vec<String> = Vec::new();
    let mut i: usize = 0;
    while i < items.len()
        invariant
            i <= items@.len(),
            views(out@) == items_text(view_items(items@.take(i as int))),
        decreases items@.len() - i,
    {
        proof {
            broadcast use vstd::std_specs::vec::axiom_vec_index_decreases;
            assert(decreases_to!(*items => items[i as int]));
            lemma_view_items_take(items@, i as int);
            let pre = view_items(items@.take(i as int));
            assert(pre.push(items@[i as int].view_of()).subrange(0, pre.len() as int) =~= pre);
        }
        let t = cbor_tool_response_text(&items[i]);
        let ghost before = out@;
        out.push(t);
        assert(views(out@) =~= views(before).push(response_text(items@[i as int].view_of())));
        i = i + 1;
    }
    assert(items@.take(items@.len() as int) =~= items@);
    out
}

fn map_parts(entries: &Vec<(CborValue, CborValue)>) -> (res: (Vec<ToolResponseHeader>, Vec<String>))
    ensures
        header_views(res.0@) == map_headers(view_entries(entries@)),
        views(res.1@) == map_body(view_entries(entries@)),
    decreases entries, 1nat,
{
    let mut headers: Vec<ToolResponseHeader> = Vec::new();
    let mut body: Vec<String> = Vec::new();
    let mut i: usize = 0;
    while i < entries.len()
        invariant
            i <= entries@.len(),
            header_views(headers@) == map_headers(view_entries(entries@.take(i as int))),
            views(body@) == map_body(view_entries(entries@.take(i as int))),
        decreases entries@.len() - i,
    {
        proof {
            broadcast use vstd::std_specs::vec::axiom_vec_index_decreases;
            assert(decreases_to!(*entries => entries[i as int]));
            lemma_view_entries_take(entries@, i as int);
            let pre = view_entries(entries@.take(i as int));
            let x = (entries@[i as int].0.view_of(), entries@[i as int].1.view_of());
            assert(pre.push(x).subrange(0, pre.len() as int) =~= pre);
        }
        let key = cbor_tool_response_text(&entries[i].0);
        let value = cbor_tool_response_text(&entries[i].1);
        let ghost hb = headers@;
        let ghost bb = body@;
        if str_eq(key.as_str(), "output") || str_eq(key.as_str(), "line-numbered content") {
            body.push(value);
            assert(views(body@) =~= views(bb).push(value@));
        } else if contains_char(value.as_str(), '\n') {
            let mut part = key;
            push_str(&mut part, ":\n");
            push_str(&mut part, value.as_str());
            body.push(part);
            assert(views(body@) =~= views(bb).push(part@));
        } else {
            headers.push(ToolResponseHeader { key, value });
            assert(header_views(headers@) =~= header_views(hb).push((key@, value@)));
        }
        i = i + 1;
    }
    assert(entries@.take(entries@.len() as int) =~= entries@);
    (headers, body)
}

/// Header lines, a blank line when there are headers, then `body`.
fn render_headers_and_body(headers: &Vec<ToolResponseHeader>, body: &str) -> (res: String)
    ensures
        res@ == render_text(header_views(headers@), body@),
{
    let mut out = String::new();
    let mut i: usize = 0;
    while i < headers.len()
        invariant
            i <= headers@.len(),
            out@ == header_lines(header_views(headers@).take(i as int)),
        decreases headers@.len() - i,
    {
        assert(header_views(headers@).take(i as int + 1).drop_last() =~= header_views(headers@).take(i as int));
        push_str(&mut out, headers[i].key.as_str());
        push_str(&mut out, ": ");
        push_str(&mut out, headers[i].value.as_str());
        push_char(&mut out, '\n');
        i = i + 1;
    }
    assert(header_views(headers@).take(headers@.len() as int) =~= header_views(headers@));
    if headers.len() > 0 {
        push_char(&mut out, '\n');
    }
    push_str(&mut out, body);
    assert(out@ =~= render_text(header_views(headers@), body@));
    out
}

impl ToolResponse {
    /// Builds the normalized provider-facing response from a raw tool result.
    pub fn from_cbor(value: &CborValue) -> (res: ToolResponse)
        ensures
            normalized_from(res, value@),
    {
        match value {
            CborValue::Dict(entries) => {
                let (headers, body_parts) = map_parts(entries);
                proof { reveal_strlit("\n"); }
                assert("\n"@ =~= seq!['\n']);
                let body = join_strings(&body_parts, "\n");
                ToolResponse { raw: value.deep_clone(), headers, body }
            },
            other => ToolResponse { raw: other.deep_clone(), headers: Vec::new(), body: cbor_tool_response_text(other) },
        }
    }

    /// Renders this response as header lines, a blank line, then the body.
    pub fn render(&self) -> (res: String)
        ensures
            res@ == self.rendered(),
    {
        render_headers_and_body(&self.headers, self.body.as_str())
    }
}

/// One tool result item in the prompt timeline.
#[derive(Debug)]
pub struct ToolResultItem {
    /// Tool call this result answers.
    pub call_id: String,
    /// Kind of tool that produced the result.
    pub tool_type: ToolType,
    /// Terminal status of the tool call.
    pub status: ToolResultStatus,
    /// Provider-facing rendered tool response plus raw payload.
    pub output: ToolResponse,
}

/// One item in the prompt/response timeline.
#[derive(Debug)]
pub enum ContextItem {
    /// Message authored by a system, developer, user, or assistant role.
    Message(MessageItem),
    /// Assistant request to invoke a tool.
    ToolCall(ToolCallItem),
    /// Tool result returned to the model.
    ToolResult(ToolResultItem),
    /// Provider-specific reasoning item.
    Reasoning(OpaqueProviderItem),
    /// Provider-specific compaction item.
    Compaction(OpaqueProviderItem),
    /// Provider item not understood yet.
    UnknownProviderItem(OpaqueProviderItem),
}

/// Transcript node projected from durable facts.
#[derive(Debug)]
pub enum TranscriptNode {
    UserInput(UserInputNode),
    AssistantResponse(AssistantResponseNode),
    ToolResults(ToolResultsNode),
    Compaction(CompactionNode),
}

/// Transcript node containing user input context items.
#[derive(Debug)]
pub struct UserInputNode {
    pub items: Vec<ContextItem>,
}

/// Transcript node containing one assistant response.
#[derive(Debug)]
pub struct AssistantResponseNode {
    /// Provider response id, when the backend returned one.
    pub provider_response_id: Option<String>,
    /// Output items produced by the assistant.
    pub output_items: Vec<ContextItem>,
}

/// Transcript node containing tool results.
#[derive(Debug)]
pub struct ToolResultsNode {
    pub items: Vec<ToolResultItem>,
}

/// Transcript node containing a compacted replacement window.
#[derive(Debug)]
pub struct CompactionNode {
    pub replacement_window: Vec<ContextItem>,
}

} // verus!

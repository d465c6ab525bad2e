//! Built-in harness-process tools: their specifications, which tool names
//! they handle, and how the `skill` tool reads its query.

use vstd::prelude::*;

use crate::text::{chars_of, owned, push_char, str_eq, views};
use crate::tool::{BackgroundSupport, ToolExecutionMode, ToolSpec, ToolType};

verus! {

broadcast use vstd::string::group_string_axioms;

pub const SKILL_TOOL_NAME: &'static str = "skill";
/// Name of the tool that starts a sub-agent on a delegated task.
pub const AGENT_START_TOOL_NAME: &'static str = "agent_start";
pub const WAIT_TOOL_NAME: &'static str = "wait";
pub const CANCEL_TOOL_NAME: &'static str = "cancel";
pub const MESSAGE_TOOL_NAME: &'static str = "message";

/// Description of the `skill` tool.
pub const SKILL_DESCRIPTION: &'static str = "Discover and load skills — short, focused playbooks for specific tasks. The user has likely curated skills for workflows they care about, so reach for this tool early: before tackling any request that touches a tool, command, framework, or domain you are not deeply familiar with — or anything the user might have an opinionated way of doing. Most skills are NOT pre-advertised in <available_skills>, so a missing entry there is no reason to skip this tool. Pass a query string; punctuation separates terms except hyphens inside skill names. If the search resolves to one skill, or a single-term query exactly matches a skill name, the full skill is loaded; otherwise matching skill names and descriptions are returned with guidance. Query terms are split on punctuation, lowercased, and deduplicated; hyphenated skill names are preserved. To load a specific ambiguous result, call this tool again with only the exact skill name.";

/// JSON Schema of the `skill` tool's input.
pub const SKILL_PARAMETERS: &'static str = "{\"additionalProperties\":false,\"properties\":{\"query\":{\"description\":\"Keywords matched case-insensitively against skill names and descriptions. Punctuation separates terms except hyphens inside skill names; terms are lowercased and deduplicated. Use only an exact skill name to load a specific ambiguous result.\",\"type\":\"string\"},\"search_content\":{\"description\":\"When true, also search the first 64 KiB of the skill file after stripping frontmatter from that prefix. Default false.\",\"type\":\"boolean\"}},\"required\":[\"query\"],\"type\":\"object\"}";

/// Description of the `agent_start` tool.
pub const DELEGATE_DESCRIPTION: &'static str = "Delegate a self-contained sub-task to a fresh sub-agent that runs with its own context and tools, and returns only its final text answer. The instant background placeholder and final result include `self_agent_id` and `sub_agent_id` headers/values. Pass `sub_agent_id` to `message`.";

/// JSON Schema of the `agent_start` tool's input.
pub const DELEGATE_PARAMETERS: &'static str = "{\"additionalProperties\":false,\"properties\":{\"execution_mode\":{\"description\":\"Default: `shared`.\",\"enum\":[\"shared\",\"update\",\"exclusive\"],\"type\":\"string\"},\"prompt\":{\"description\":\"Self-contained task for the sub-agent.\",\"type\":\"string\"},\"role\":{\"description\":\"Optional sub-agent role to use.\",\"type\":\"string\"},\"task_name\":{\"description\":\"Short human-readable label for the sub-task (a few words, lowercase). Surfaced live to the user as `delegate [task_name]` while the sub-agent runs.\",\"type\":\"string\"}},\"required\":[\"task_name\",\"prompt\"],\"type\":\"object\"}";

/// Description of the `message` tool.
pub const MESSAGE_DESCRIPTION: &'static str = "Send an async message to another live or pending agent, or to the user. Use recipient_id `user`, or a `sub_agent_id` returned by `delegate`; UI display depends on `/set show-messages`. A non-user recipient also receives a hidden prompt. Requires `recipient_id` and `message`.";

/// JSON Schema of the `message` tool's input.
pub const MESSAGE_PARAMETERS: &'static str = "{\"additionalProperties\":false,\"properties\":{\"message\":{\"description\":\"Message body.\",\"type\":\"string\"},\"recipient_id\":{\"description\":\"Recipient agent_id, or the special value `user`.\",\"type\":\"string\"}},\"required\":[\"recipient_id\",\"message\"],\"type\":\"object\"}";

/// Description of the `cancel` tool.
pub const CANCEL_DESCRIPTION: &'static str = "Cancel a running supported background tool call. Requires `tool_call_id`; currently delegate and shell tool calls can be canceled. Duplicate cancellation requests for the same tool call fail when tracked.";

/// JSON Schema of the `cancel` tool's input.
pub const CANCEL_PARAMETERS: &'static str = "{\"additionalProperties\":false,\"properties\":{\"tool_call_id\":{\"description\":\"Required id of the running supported background tool call to cancel.\",\"type\":\"string\"}},\"required\":[\"tool_call_id\"],\"type\":\"object\"}";

/// Description of the `wait` tool.
pub const WAIT_DESCRIPTION: &'static str = "Wait for background tool calls. With `tool_call_id`, wait for that specific background call. Without `tool_call_id`, wait for the first background call in this conversation to finish and return its `original_tool_call_id`. Already-finished matching results return immediately. Tau will notify you via marked internal messages about background calls completing; `wait({})` consumes one completion and suppresses that completion notice.";

/// JSON Schema of the `wait` tool's input.
pub const WAIT_PARAMETERS: &'static str = "{\"additionalProperties\":false,\"properties\":{\"tool_call_id\":{\"description\":\"Optional. When set, wait for this specific background tool call. When omitted, wait for the first background tool call in this conversation to finish.\",\"type\":\"string\"}},\"type\":\"object\"}";

/// `spec` is the built-in tool `name` with the given description,
/// parameters and background support: a function tool, enabled by default,
/// run in shared mode.
pub open spec fn builtin_spec(spec: ToolSpec, name: Seq<char>, description: Seq<char>, parameters: Seq<char>, background: Option<BackgroundSupport>) -> bool {
    &&& spec.name@ == name
    &&& spec.model_visible_name is None
    &&& (spec.description matches Some(d) && d@ == description)
    &&& spec.tool_type == ToolType::Function
    &&& (spec.parameters matches Some(p) && p@ == parameters)
    &&& spec.enabled_by_default
    &&& spec.execution_mode == ToolExecutionMode::Shared
    &&& spec.background_support == background
}

fn builtin(name: &str, description: &str, parameters: &str, background: Option<BackgroundSupport>) -> (res: ToolSpec)
    ensures
        builtin_spec(res, name@, description@, parameters@, background),
{
    ToolSpec {
        name: owned(name),
        model_visible_name: None,
        description: Some(owned(description)),
        tool_type: ToolType::Function,
        parameters: Some(owned(parameters)),
        enabled_by_default: true,
        execution_mode: ToolExecutionMode::Shared,
        background_support: background,
    }
}

/// The `skill` tool.
pub fn skill_tool_spec() -> (res: ToolSpec)
    ensures
        builtin_spec(res, SKILL_TOOL_NAME@, SKILL_DESCRIPTION@, SKILL_PARAMETERS@, None::<BackgroundSupport>),
{
    builtin(SKILL_TOOL_NAME, SKILL_DESCRIPTION, SKILL_PARAMETERS, None)
}

/// The sub-agent tool, advertised as `agent_start`.
pub fn delegate_tool_spec() -> (res: ToolSpec)
    ensures
        builtin_spec(res, AGENT_START_TOOL_NAME@, DELEGATE_DESCRIPTION@, DELEGATE_PARAMETERS@, Some(BackgroundSupport::Instant)),
{
    builtin(AGENT_START_TOOL_NAME, DELEGATE_DESCRIPTION, DELEGATE_PARAMETERS, Some(BackgroundSupport::Instant))
}

/// The `message` tool.
pub fn message_tool_spec() -> (res: ToolSpec)
    ensures
        builtin_spec(res, MESSAGE_TOOL_NAME@, MESSAGE_DESCRIPTION@, MESSAGE_PARAMETERS@, Some(BackgroundSupport::Never)),
{
    builtin(MESSAGE_TOOL_NAME, MESSAGE_DESCRIPTION, MESSAGE_PARAMETERS, Some(BackgroundSupport::Never))
}

/// The `cancel` tool.
pub fn cancel_tool_spec() -> (res: ToolSpec)
    ensures
        builtin_spec(res, CANCEL_TOOL_NAME@, CANCEL_DESCRIPTION@, CANCEL_PARAMETERS@, Some(BackgroundSupport::Never)),
{
    builtin(CANCEL_TOOL_NAME, CANCEL_DESCRIPTION, CANCEL_PARAMETERS, Some(BackgroundSupport::Never))
}

/// The `wait` tool.
pub fn wait_tool_spec() -> (res: ToolSpec)
    ensures
        builtin_spec(res, WAIT_TOOL_NAME@, WAIT_DESCRIPTION@, WAIT_PARAMETERS@, Some(BackgroundSupport::Never)),
{
    builtin(WAIT_TOOL_NAME, WAIT_DESCRIPTION, WAIT_PARAMETERS, Some(BackgroundSupport::Never))
}

/// The built-in tool a name denotes.
#[derive(Clone, Copy, Debug, PartialEq, Eq, Structural)]
pub enum BuiltinTool {
    Skill,
    AgentStart,
    Wait,
    Message,
    Cancel,
}

/// The built-in tool named `name`, if any.
pub open spec fn builtin_named(name: Seq<char>) -> Option<BuiltinTool> {
    if name == "skill"@ {
        Some(BuiltinTool::Skill)
    } else if name == "agent_start"@ {
        Some(BuiltinTool::AgentStart)
    } else if name == "wait"@ {
        Some(BuiltinTool::Wait)
    } else if name == "message"@ {
        Some(BuiltinTool::Message)
    } else if name == "cancel"@ {
        Some(BuiltinTool::Cancel)
    } else {
        None
    }
}

/// The built-in harness-process tools.
pub struct BuiltinTools;

impl BuiltinTools {
    /// The specifications the built-in tools register, in order: skill,
    /// delegate, wait, cancel, message.
    pub fn tool_specs(&self) -> (res: Vec<ToolSpec>)
        ensures
            res@.len() == 5,
            builtin_spec(res@[0], SKILL_TOOL_NAME@, SKILL_DESCRIPTION@, SKILL_PARAMETERS@, None),
            builtin_spec(res@[1], AGENT_START_TOOL_NAME@, DELEGATE_DESCRIPTION@, DELEGATE_PARAMETERS@, Some(BackgroundSupport::Instant)),
            builtin_spec(res@[2], WAIT_TOOL_NAME@, WAIT_DESCRIPTION@, WAIT_PARAMETERS@, Some(BackgroundSupport::Never)),
            builtin_spec(res@[3], CANCEL_TOOL_NAME@, CANCEL_DESCRIPTION@, CANCEL_PARAMETERS@, Some(BackgroundSupport::Never)),
            builtin_spec(res@[4], MESSAGE_TOOL_NAME@, MESSAGE_DESCRIPTION@, MESSAGE_PARAMETERS@, Some(BackgroundSupport::Never)),
    {
        let mut v: Vec<ToolSpec> = Vec::new();
        v.push(skill_tool_spec());
        v.push(delegate_tool_spec());
        v.push(wait_tool_spec());
        v.push(cancel_tool_spec());
        v.push(message_tool_spec());
        v
    }

    /// The built-in tool an internal tool name routes to, if any.
    pub fn route(&self, internal_tool_name: &str) -> (res: Option<BuiltinTool>)
        ensures
            res == builtin_named(internal_tool_name@),
    {
        proof {
            reveal_strlit("skill");
            reveal_strlit("agent_start");
            reveal_strlit("wait");
            reveal_strlit("message");
            reveal_strlit("cancel");
        }
        if str_eq(internal_tool_name, SKILL_TOOL_NAME) {
            Some(BuiltinTool::Skill)
        } else if str_eq(internal_tool_name, AGENT_START_TOOL_NAME) {
            Some(BuiltinTool::AgentStart)
        } else if str_eq(internal_tool_name, WAIT_TOOL_NAME) {
            Some(BuiltinTool::Wait)
        } else if str_eq(internal_tool_name, MESSAGE_TOOL_NAME) {
            Some(BuiltinTool::Message)
        } else if str_eq(internal_tool_name, CANCEL_TOOL_NAME) {
            Some(BuiltinTool::Cancel)
        } else {
            None
        }
    }

    /// Whether these tools own `internal_tool_name`.
    pub fn handles(&self, internal_tool_name: &str) -> (res: bool)
        ensures
            res == (builtin_named(internal_tool_name@) is Some),
    {
        self.route(internal_tool_name).is_some()
    }
}

/// The built-in tool handlers.
pub fn builtin_handlers() -> (res: Vec<BuiltinTools>)
    ensures
        res@.len() == 1,
{
    let mut v: Vec<BuiltinTools> = Vec::new();
    v.push(BuiltinTools);
    v
}

// ---------------------------------------------------------------------------
// Skill query terms
// ---------------------------------------------------------------------------

/// The lowercase mapping of a character, as `char::to_lowercase` yields it.
pub uninterp spec fn lowercase_of(c: char) -> Seq<char>;

/// Whether a character is alphanumeric, as `char::is_alphanumeric` says.
pub uninterp spec fn alphanumeric(c: char) -> bool;

/// Trusted wrapper around `char::to_lowercase`; its characters are named
/// [`lowercase_of`] of the argument.
#[verifier::external_body]
fn char_to_lowercase(c: char) -> (res: Vec<char>)
    ensures
        res@ == lowercase_of(c),
{
    c.to_lowercase().collect()
}

/// Trusted wrapper around `char::is_alphanumeric`; its answer is named
/// [`alphanumeric`] of the argument.
#[verifier::external_body]
fn char_is_alphanumeric(c: char) -> (res: bool)
    ensures
        res == alphanumeric(c),
{
    c.is_alphanumeric()
}

/// The lowercased characters of a query.
pub open spec fn lowered(s: Seq<char>) -> Seq<char>
    decreases s.len(),
{
    if s.len() == 0 { Seq::empty() } else { lowered(s.drop_last()) + lowercase_of(s.last()) }
}

/// A character that can belong to a term.
pub open spec fn term_char(c: char) -> bool {
    alphanumeric(c) || c == '-'
}

/// `s` without leading and trailing `-`.
pub open spec fn trim_dashes(s: Seq<char>) -> Seq<char>
    decreases s.len(),
{
    if s.len() > 0 && s[0] == '-' {
        trim_dashes(s.drop_first())
    } else if s.len() > 0 && s.last() == '-' {
        trim_dashes(s.drop_last())
    } else {
        s
    }
}

/// The terms after the pending run `current` ends.
pub open spec fn add_term(terms: Seq<Seq<char>>, current: Seq<char>) -> Seq<Seq<char>> {
    let t = trim_dashes(current);
    if t.len() > 0 && !terms.contains(t) { terms.push(t) } else { terms }
}

/// The terms found and the pending run after reading `cs`.
pub open spec fn scan_terms(cs: Seq<char>) -> (Seq<Seq<char>>, Seq<char>)
    decreases cs.len(),
{
    if cs.len() == 0 {
        (Seq::empty(), Seq::empty())
    } else {
        let (terms, current) = scan_terms(cs.drop_last());
        let c = cs.last();
        if term_char(c) { (terms, current.push(c)) } else { (add_term(terms, current), Seq::empty()) }
    }
}

/// The search terms of a raw query: lowercased, split at characters that
/// are neither alphanumeric nor `-`, trimmed of `-`, non-empty, each once,
/// in order of first appearance.
pub open spec fn skill_terms(raw: Seq<char>) -> Seq<Seq<char>> {
    let (terms, current) = scan_terms(lowered(raw));
    add_term(terms, current)
}

/// `t` occurs in `s` as a contiguous run.
pub open spec fn infix_of(t: Seq<char>, s: Seq<char>) -> bool {
    exists|k: int| 0 <= k && k + t.len() <= s.len() && #[trigger] s.subrange(k, k + t.len()) == t
}

/// A search term: non-empty, made of term characters, neither starting
/// nor ending with `-`.
pub open spec fn term_shaped(t: Seq<char>) -> bool {
    &&& t.len() > 0
    &&& t[0] != '-'
    &&& t.last() != '-'
    &&& forall|i: int| 0 <= i < t.len() ==> term_char(#[trigger] t[i])
}

/// No term occurs twice.
pub open spec fn terms_distinct(terms: Seq<Seq<char>>) -> bool {
    forall|i: int, j: int| 0 <= i < terms.len() && 0 <= j < terms.len() && i != j ==> #[trigger] terms[i] != #[trigger] terms[j]
}

/// Terms of the right shape, each a run of `cs`, none twice.
pub open spec fn terms_of_run(terms: Seq<Seq<char>>, cs: Seq<char>) -> bool {
    &&& forall|i: int| 0 <= i < terms.len() ==> term_shaped(#[trigger] terms[i]) && infix_of(terms[i], cs)
    &&& terms_distinct(terms)
}

/// Trimming dashes keeps a run of the input (starting at the returned
/// index) that neither starts nor ends with `-`.
proof fn lemma_trim_dashes(s: Seq<char>) -> (lo: int)
    ensures
        0 <= lo,
        lo + trim_dashes(s).len() <= s.len(),
        s.subrange(lo, lo + trim_dashes(s).len()) == trim_dashes(s),
        trim_dashes(s).len() > 0 ==> trim_dashes(s)[0] != '-' && trim_dashes(s).last() != '-',
    decreases s.len(),
{
    let t = trim_dashes(s);
    if s.len() > 0 && s[0] == '-' {
        let l = lemma_trim_dashes(s.drop_first());
        assert(s.subrange(l + 1, l + 1 + t.len()) =~= s.drop_first().subrange(l, l + t.len()));
        l + 1
    } else if s.len() > 0 && s.last() == '-' {
        let l = lemma_trim_dashes(s.drop_last());
        assert(s.subrange(l, l + t.len()) =~= s.drop_last().subrange(l, l + t.len()));
        l
    } else {
        assert(s.subrange(0, s.len() as int) =~= s);
        0
    }
}

/// A run of `prev` is a run of `prev` with more characters after it.
proof fn lemma_infix_push(t: Seq<char>, prev: Seq<char>, c: char)
    requires
        infix_of(t, prev),
    ensures
        infix_of(t, prev.push(c)),
{
    let k = choose|k: int| 0 <= k && k + t.len() <= prev.len() && #[trigger] prev.subrange(k, k + t.len()) == t;
    assert(prev.push(c).subrange(k, k + t.len()) =~= prev.subrange(k, k + t.len()));
}

/// Ending a pending run that is a run of term characters at the end of
/// `cs` keeps the terms well shaped, runs of `cs` and distinct.
proof fn lemma_add_term(terms: Seq<Seq<char>>, current: Seq<char>, cs: Seq<char>)
    requires
        terms_of_run(terms, cs),
        current.len() <= cs.len(),
        cs.subrange(cs.len() - current.len(), cs.len() as int) == current,
        forall|i: int| 0 <= i < current.len() ==> term_char(#[trigger] current[i]),
    ensures
        terms_of_run(add_term(terms, current), cs),
{
    let t = trim_dashes(current);
    let lo = lemma_trim_dashes(current);
    if t.len() > 0 && !terms.contains(t) {
        let start = cs.len() - current.len() + lo;
        assert(cs.subrange(start, start + t.len()) =~= current.subrange(lo, lo + t.len()));
        assert forall|i: int| 0 <= i < t.len() implies term_char(#[trigger] t[i]) by {
            assert(t[i] == current[lo + i]);
        }
        let nt = terms.push(t);
        assert forall|i: int| 0 <= i < nt.len() implies term_shaped(#[trigger] nt[i]) && infix_of(nt[i], cs) by {
            if i < terms.len() {
                assert(nt[i] == terms[i]);
            }
        }
        assert forall|i: int, j: int| 0 <= i < nt.len() && 0 <= j < nt.len() && i != j implies #[trigger] nt[i] != #[trigger] nt[j] by {
            if i == terms.len() {
                assert(nt[j] == terms[j]);
            } else if j == terms.len() {
                assert(nt[i] == terms[i]);
            } else {
                assert(nt[i] == terms[i] && nt[j] == terms[j]);
            }
        }
    }
}

/// After reading `cs`, the terms are well shaped, runs of `cs` and
/// distinct, and the pending run is a run of term characters ending `cs`.
proof fn lemma_scan_terms(cs: Seq<char>)
    ensures
        terms_of_run(scan_terms(cs).0, cs),
        scan_terms(cs).1.len() <= cs.len(),
        cs.subrange(cs.len() - scan_terms(cs).1.len(), cs.len() as int) == scan_terms(cs).1,
        forall|i: int| 0 <= i < scan_terms(cs).1.len() ==> term_char(#[trigger] scan_terms(cs).1[i]),
    decreases cs.len(),
{
    if cs.len() == 0 {
        assert(cs.subrange(0, 0) =~= Seq::<char>::empty());
    } else {
        let prev = cs.drop_last();
        let c = cs.last();
        lemma_scan_terms(prev);
        let (terms, current) = scan_terms(prev);
        assert(prev.push(c) =~= cs);
        assert forall|i: int| 0 <= i < terms.len() implies infix_of(#[trigger] terms[i], cs) by {
            lemma_infix_push(terms[i], prev, c);
        }
        if term_char(c) {
            assert(cs.subrange(cs.len() - (current.len() + 1), cs.len() as int) =~= current.push(c));
            assert forall|i: int| 0 <= i < current.push(c).len() implies term_char(#[trigger] current.push(c)[i]) by {
                if i < current.len() {
                    assert(current.push(c)[i] == current[i]);
                }
            }
        } else {
            assert(cs.subrange(cs.len() - current.len() - 1, cs.len() - 1) =~= prev.subrange(prev.len() - current.len(), prev.len() as int));
            lemma_add_term(terms, current, prev);
            let nt = add_term(terms, current);
            assert forall|i: int| 0 <= i < nt.len() implies infix_of(#[trigger] nt[i], cs) by {
                lemma_infix_push(nt[i], prev, c);
            }
            assert(cs.subrange(cs.len() as int, cs.len() as int) =~= Seq::<char>::empty());
        }
    }
}

/// Every search term of a query is non-empty, made of alphanumeric
/// characters and `-`, neither starts nor ends with `-`, occurs as a
/// contiguous run of the lowercased query, and is listed once.
pub proof fn law_skill_terms_shape(raw: Seq<char>)
    ensures
        terms_of_run(skill_terms(raw), lowered(raw)),
{
    let cs = lowered(raw);
    lemma_scan_terms(cs);
    lemma_add_term(scan_terms(cs).0, scan_terms(cs).1, cs);
}

/// `s` with leading and trailing `-` removed.
fn trim_dash_chars(s: &str) -> (res: String)
    ensures
        res@ == trim_dashes(s@),
{
    let cs = chars_of(s);
    let mut lo: usize = 0;
    let mut hi: usize = cs.len();
    assert(cs@.subrange(0, hi as int) =~= s@);
    while lo < hi && (cs[lo] == '-' || cs[hi - 1] == '-')
        invariant
            cs@ == s@,
            lo <= hi <= cs@.len(),
            trim_dashes(s@) == trim_dashes(cs@.subrange(lo as int, hi as int)),
        decreases hi - lo,
    {
        let ghost sub = cs@.subrange(lo as int, hi as int);
        assert(sub[0] == cs@[lo as int]);
        assert(sub.last() == cs@[hi - 1]);
        if cs[lo] == '-' {
            assert(sub.drop_first() =~= cs@.subrange(lo + 1, hi as int));
            lo = lo + 1;
        } else {
            assert(sub.drop_last() =~= cs@.subrange(lo as int, hi - 1));
            hi = hi - 1;
        }
    }
    let mut out = String::new();
    let mut i = lo;
    while i < hi
        invariant
            lo <= i <= hi <= cs@.len(),
            out@ == cs@.subrange(lo as int, i as int),
        decreases hi - i,
    {
        push_char(&mut out, cs[i]);
        assert(out@ =~= cs@.subrange(lo as int, i + 1));
        i = i + 1;
    }
    proof {
        let sub = cs@.subrange(lo as int, hi as int);
        if sub.len() > 0 {
            assert(sub[0] == cs@[lo as int]);
            assert(sub.last() == cs@[hi - 1]);
        }
    }
    out
}

/// Ends the pending run: its dash-trimmed text becomes a new term unless
/// it is empty or already known; the run is cleared.
pub fn push_normalized_skill_term(terms: &mut Vec<String>, current: &mut String)
    ensures
        views(final(terms)@) == add_term(views(old(terms)@), old(current)@),
        final(current)@ == Seq::<char>::empty(),
{
    let term = trim_dash_chars(current.as_str());
    if term.unicode_len() > 0 && !crate::cli::contains_name(terms, term.as_str()) {
        let ghost before = views(terms@);
        let ghost tv = term@;
        terms.push(term);
        assert(views(terms@) =~= before.push(tv));
    }
    *current = String::new();
}

/// Parses a raw skill query into lowercased search terms.
pub fn normalized_skill_query_terms(raw_query: &str) -> (res: Vec<String>)
    ensures
        views(res@) == skill_terms(raw_query@),
        terms_of_run(views(res@), lowered(raw_query@)),
{
    proof {
        law_skill_terms_shape(raw_query@);
    }
    let raw = chars_of(raw_query);
    let mut terms: Vec<String> = Vec::new();
    let mut current = String::new();
    let mut i: usize = 0;
    let ghost mut low: Seq<char> = Seq::empty();
    assert(views(terms@) =~= Seq::<Seq<char>>::empty());
    assert(raw@.take(0) =~= Seq::<char>::empty());
    while i < raw.len()
        invariant
            raw@ == raw_query@,
            i <= raw@.len(),
            low == lowered(raw@.take(i as int)),
            (views(terms@), current@) == scan_terms(low),
        decreases raw@.len() - i,
    {
        let lower = char_to_lowercase(raw[i]);
        assert(raw@.take(i + 1).drop_last() =~= raw@.take(i as int));
        let mut j: usize = 0;
        let ghost base = low;
        while j < lower.len()
            invariant
                j <= lower@.len(),
                lower@ == lowercase_of(raw@[i as int]),
                low == base + lower@.take(j as int),
                (views(terms@), current@) == scan_terms(low),
            decreases lower@.len() - j,
        {
            let ch = lower[j];
            let ghost prev = low;
            proof {
                low = low.push(ch);
                assert(base + lower@.take(j + 1) =~= prev.push(ch));
                assert(low.drop_last() =~= prev);
            }
            if char_is_alphanumeric(ch) || ch == '-' {
                push_char(&mut current, ch);
            } else {
                push_normalized_skill_term(&mut terms, &mut current);
            }
            j = j + 1;
        }
        assert(lower@.take(lower@.len() as int) =~= lower@);
        i = i + 1;
    }
    assert(raw@.take(raw@.len() as int) =~= raw@);
    push_normalized_skill_term(&mut terms, &mut current);
    terms
}

} // verus!

//! Building blocks of the per-turn prompt: the text form of tool results,
//! prompt-hook sections, the AGENTS.md context message, Nickel string
//! literals, the current date, and the assembly of a conversation branch
//! into prompt context items.

use vstd::prelude::*;

use crate::cbor::{lemma_view_entries_take, lemma_view_items_take, view_entries, view_items, CborValue, CborView};
use crate::context::{bytes_text, ContextItem, ToolResultItem};
use crate::proto::{hook_view, PromptHook};
use crate::text::{decimal, digit_char, join, join_strings, owned, push_char, push_decimal, push_signed_decimal, push_str, signed_decimal, str_eq, views};

verus! {

broadcast use vstd::string::group_string_axioms;

// ---------------------------------------------------------------------------
// Text of tool results
// ---------------------------------------------------------------------------

/// The human-readable text of a CBOR value: scalars as text, arrays one
/// element per line, maps one `key: value` line per entry (a value that
/// spans lines, or the `line-numbered content` entry, starts on the line
/// after `key:`).
pub open spec fn cbor_text(v: CborView) -> Seq<char>
    decreases v, 0nat,
{
    match v {
        CborView::Null => Seq::empty(),
        CborView::Bool(b) => if b { "true"@ } else { "false"@ },
        CborView::Integer(i) => signed_decimal(i),
        CborView::Text(s) => s,
        CborView::Bytes(b) => bytes_text(b.len()),
        CborView::Array(items) => join(cbor_items_text(items), seq!['\n']),
        CborView::Dict(e) => join(cbor_entry_lines(e), seq!['\n']),
        CborView::Tag(_, inner) => cbor_text(*inner),
    }
}

/// The texts of a list of values.
pub open spec fn cbor_items_text(items: Seq<CborView>) -> Seq<Seq<char>>
    decreases items, 1nat,
{
    if items.len() == 0 {
        Seq::empty()
    } else {
        proof {
            broadcast use vstd::seq::axiom_seq_subrange_decreases, vstd::seq::axiom_seq_index_decreases;
            assert(decreases_to!(items => items[items.len() - 1]));
            assert(decreases_to!(items => items.subrange(0, items.len() - 1)));
        }
        cbor_items_text(items.subrange(0, items.len() - 1)).push(cbor_text(items[items.len() - 1]))
    }
}

/// One line (or block) per map entry.
pub open spec fn cbor_entry_lines(e: Seq<(CborView, CborView)>) -> Seq<Seq<char>>
    decreases e, 1nat,
{
    if e.len() == 0 {
        Seq::empty()
    } else {
        proof {
            broadcast use vstd::seq::axiom_seq_subrange_decreases, vstd::seq::axiom_seq_index_decreases;
            assert(decreases_to!(e => e[e.len() - 1]));
            assert(decreases_to!(e[e.len() - 1] => e[e.len() - 1].0));
            assert(decreases_to!(e[e.len() - 1] => e[e.len() - 1].1));
            assert(decreases_to!(e => e.subrange(0, e.len() - 1)));
        }
        cbor_entry_lines(e.subrange(0, e.len() - 1)).push(
            entry_line(cbor_text(e[e.len() - 1].0), cbor_text(e[e.len() - 1].1)),
        )
    }
}

/// `key: value`, or `key:` and the value on the following lines.
pub open spec fn entry_line(key: Seq<char>, value: Seq<char>) -> Seq<char> {
    if value.contains('\n') || key == "line-numbered content"@ {
        key + ":\n"@ + value
    } else {
        key + ": "@ + value
    }
}

/// Appends `<N bytes>`.
fn push_bytes(s: &mut String, n: usize)
    ensures
        final(s)@ == old(s)@ + bytes_text(n as nat),
{
    push_char(s, '<');
    push_decimal(s, n as u128);
    push_str(s, " bytes>");
    assert(final(s)@ =~= old(s)@ + bytes_text(n as nat));
}

/// Converts a CBOR value to human-readable text for tool results.
pub fn cbor_to_text(v: &CborValue) -> (res: String)
    ensures
        res@ == cbor_text(v@),
    decreases v, 0nat,
{
    match v {
        CborValue::Null => String::new(),
        CborValue::Bool(b) => if *b { owned("true") } else { owned("false") },
        CborValue::Integer(i) => {
            let mut s = String::new();
            push_signed_decimal(&mut s, *i);
            assert(s@ =~= signed_decimal(*i as int));
            s
        },
        CborValue::Text(t) => t.clone(),
        CborValue::Bytes(b) => {
            let mut s = String::new();
            push_bytes(&mut s, b.len());
            assert(s@ =~= bytes_text(b@.len()));
            s
        },
        CborValue::Array(items) => {
            let texts = items_to_text(items);
            proof { reveal_strlit("\n"); }
            assert("\n"@ =~= seq!['\n']);
            join_strings(&texts, "\n")
        },
        CborValue::Dict(entries) => {
            let lines = entries_to_lines(entries);
            proof { reveal_strlit("\n"); }
            assert("\n"@ =~= seq!['\n']);
            join_strings(&lines, "\n")
        },
        CborValue::Tag(_, inner) => cbor_to_text(inner),
    }
}

fn items_to_text(items: &Vec<CborValue>) -> (res: Vec<String>)
    ensures
        views(res@) == cbor_items_text(view_items(items@)),
    decreases items, 1nat,
{
    let mut out: Vec<String> = Vec::new();
    let mut i: usize = 0;
    while i < items.len()
        invariant
            i <= items@.len(),
            views(out@) == cbor_items_text(view_items(items@.take(i as int))),
        decreases items@.len() - i,
    {
        proof {
            broadcast use vstd::std_specs::vec::axiom_vec_index_decreases;
            assert(decreases_to!(*items => items[i as int]));
            lemma_view_items_take(items@, i as int);
            let pre = view_items(items@.take(i as int));
            assert(pre.push(items@[i as int].view_of()).subrange(0, pre.len() as int) =~= pre);
        }
        let t = cbor_to_text(&items[i]);
        let ghost before = out@;
        out.push(t);
        assert(views(out@) =~= views(before).push(cbor_text(items@[i as int].view_of())));
        i = i + 1;
    }
    assert(items@.take(items@.len() as int) =~= items@);
    out
}

fn entries_to_lines(entries: &Vec<(CborValue, CborValue)>) -> (res: Vec<String>)
    ensures
        views(res@) == cbor_entry_lines(view_entries(entries@)),
    decreases entries, 1nat,
{
    let mut out: Vec<String> = Vec::new();
    let mut i: usize = 0;
    while i < entries.len()
        invariant
            i <= entries@.len(),
            views(out@) == cbor_entry_lines(view_entries(entries@.take(i as int))),
        decreases entries@.len() - i,
    {
        proof {
            broadcast use vstd::std_specs::vec::axiom_vec_index_decreases;
            assert(decreases_to!(*entries => entries[i as int]));
            lemma_view_entries_take(entries@, i as int);
            let pre = view_entries(entries@.take(i as int));
            let x = (entries@[i as int].0.view_of(), entries@[i as int].1.view_of());
            assert(pre.push(x).subrange(0, pre.len() as int) =~= pre);
        }
        let key = cbor_to_text(&entries[i].0);
        let value = cbor_to_text(&entries[i].1);
        let ghost before = out@;
        let mut line = key;
        proof {
            reveal_strlit("line-numbered content");
        }
        if crate::text::contains_char(value.as_str(), '\n') || str_eq(line.as_str(), "line-numbered content") {
            push_str(&mut line, ":\n");
        } else {
            push_str(&mut line, ": ");
        }
        push_str(&mut line, value.as_str());
        out.push(line);
        assert(views(out@) =~= views(before).push(line@));
        i = i + 1;
    }
    assert(entries@.take(entries@.len() as int) =~= entries@);
    out
}

/// The first entry of a map whose key is the text `key` and whose value is
/// a boolean gives the result.
pub open spec fn map_bool(e: Seq<(CborView, CborView)>, key: Seq<char>) -> Option<bool>
    decreases e.len(),
{
    if e.len() == 0 {
        None
    } else if e[0].0 == CborView::Text(key) && e[0].1 is Bool {
        Some(e[0].1->Bool_0)
    } else {
        map_bool(e.drop_first(), key)
    }
}

/// Extracts a boolean value from a CBOR map by key: the first entry keyed
/// by the text `key` that holds a boolean. Anything else than a map gives
/// `None`.
pub fn cbor_map_bool(map: &CborValue, key: &str) -> (res: Option<bool>)
    ensures
        res == (match map@ {
            CborView::Dict(e) => map_bool(e, key@),
            _ => None,
        }),
{
    match map {
        CborValue::Dict(entries) => {
            let ghost e = view_entries(entries@);
            assert(map@ == CborView::Dict(e));
            proof {
                crate::cbor::lemma_view_entries(entries@);
                assert(e.skip(0) =~= e);
            }
            let mut i: usize = 0;
            while i < entries.len()
                invariant
                    map@ == CborView::Dict(e),
                    e == view_entries(entries@),
                    e.len() == entries@.len(),
                    forall|k: int| 0 <= k < entries@.len() ==> #[trigger] e[k] == (entries@[k].0.view_of(), entries@[k].1.view_of()),
                    i <= e.len(),
                    map_bool(e, key@) == map_bool(e.skip(i as int), key@),
                decreases e.len() - i,
            {
                assert(e.skip(i as int).drop_first() =~= e.skip(i + 1));
                assert(e.skip(i as int)[0] == e[i as int]);
                match (&entries[i].0, &entries[i].1) {
                    (CborValue::Text(k), CborValue::Bool(b)) => {
                        assert(e[i as int] == (CborView::Text(k@), CborView::Bool(*b)));
                        if str_eq(k.as_str(), key) {
                            return Some(*b);
                        }
                    },
                    _ => {},
                }
                i = i + 1;
            }
            None
        },
        _ => None,
    }
}

// ---------------------------------------------------------------------------
// Prompt hooks
// ---------------------------------------------------------------------------

/// The non-empty contents of a hook, in order, separated by blank lines.
pub open spec fn hook_text(contents: Seq<Seq<char>>) -> Seq<char> {
    join(non_empty(contents), "\n\n"@)
}

/// The non-empty texts of a list, in order.
pub open spec fn non_empty(cs: Seq<Seq<char>>) -> Seq<Seq<char>>
    decreases cs.len(),
{
    if cs.len() == 0 {
        Seq::empty()
    } else if cs.last().len() > 0 {
        non_empty(cs.drop_last()).push(cs.last())
    } else {
        non_empty(cs.drop_last())
    }
}

/// The contents of hook entries, in order.
pub open spec fn hook_contents(h: Seq<(u16, Seq<char>)>) -> Seq<Seq<char>> {
    Seq::new(h.len(), |i: int| h[i].1)
}

/// Appends the hook's non-empty contents to `prompt`, separated by blank
/// lines.
pub fn append_prompt_hook(prompt: &mut String, hook: &PromptHook)
    ensures
        final(prompt)@ == old(prompt)@ + hook_text(hook_contents(hook@)),
{
    let entries = hook.entries();
    let ghost cs = hook_contents(hook@);
    let mut first = true;
    let mut i: usize = 0;
    proof {
        reveal_strlit("\n\n");
    }
    while i < entries.len()
        invariant
            hook_view(entries@) == hook@,
            cs == hook_contents(hook@),
            i <= entries@.len(),
            prompt@ == old(prompt)@ + join(non_empty(cs.take(i as int)), "\n\n"@),
            first == (non_empty(cs.take(i as int)).len() == 0),
        decreases entries@.len() - i,
    {
        let ghost before = non_empty(cs.take(i as int));
        assert(cs.take(i + 1).drop_last() =~= cs.take(i as int));
        assert(cs[i as int] == entries@[i as int].1@);
        let content = &entries[i].1;
        if !content.is_empty() {
            if !first {
                push_str(prompt, "\n\n");
            }
            push_str(prompt, content.as_str());
            first = false;
            let ghost after = non_empty(cs.take(i + 1));
            assert(after =~= before.push(cs[i as int]));
            assert(after.drop_last() =~= before);
            assert(prompt@ =~= old(prompt)@ + join(after, "\n\n"@));
        } else {
            assert(non_empty(cs.take(i + 1)) =~= before);
        }
        i = i + 1;
    }
    assert(cs.take(cs.len() as int) =~= cs);
}

/// The tool prompt hooks section: the hook's non-empty contents separated
/// by blank lines.
pub fn render_tool_prompt_hooks_section(tool_prompt_hook: &PromptHook) -> (res: String)
    ensures
        res@ == hook_text(hook_contents(tool_prompt_hook@)),
{
    let mut prompt = String::new();
    append_prompt_hook(&mut prompt, tool_prompt_hook);
    prompt
}

// ---------------------------------------------------------------------------
// Nickel string literals
// ---------------------------------------------------------------------------

/// A lowercase hexadecimal digit.
pub open spec fn hex_digit(d: nat) -> char {
    if d < 10 { digit_char(d) } else { (('a' as nat) + (d - 10)) as char }
}

/// How one character appears inside a Nickel string literal.
pub open spec fn nickel_escape(c: char) -> Seq<char> {
    if c == '\\' {
        seq!['\\', '\\']
    } else if c == '"' {
        seq!['\\', '"']
    } else if c == '\n' {
        seq!['\\', 'n']
    } else if c == '\r' {
        seq!['\\', 'r']
    } else if c == '\t' {
        seq!['\\', 't']
    } else if crate::text::is_cc(c) {
        seq!['\\', 'u', '0', '0', hex_digit((c as nat) / 16), hex_digit((c as nat) % 16)]
    } else {
        seq![c]
    }
}

/// The escaped characters of `s`, in order.
pub open spec fn nickel_escaped(s: Seq<char>) -> Seq<char>
    decreases s.len(),
{
    if s.len() == 0 {
        Seq::empty()
    } else {
        nickel_escaped(s.drop_last()) + nickel_escape(s.last())
    }
}

fn hex_char(d: u32) -> (res: char)
    requires
        d < 16,
    ensures
        res == hex_digit(d as nat),
{
    if d < 10 {
        crate::text::digit(d as u128)
    } else if d == 10 {
        'a'
    } else if d == 11 {
        'b'
    } else if d == 12 {
        'c'
    } else if d == 13 {
        'd'
    } else if d == 14 {
        'e'
    } else {
        'f'
    }
}

/// A Nickel string literal whose value is `text`: quoted, with backslash,
/// quote, line breaks, tab and other control characters escaped.
pub fn nickel_string_literal(text: &str) -> (res: String)
    ensures
        res@ == seq!['"'] + nickel_escaped(text@) + seq!['"'],
{
    let cs = crate::text::chars_of(text);
    let mut escaped = String::new();
    push_char(&mut escaped, '"');
    let mut i: usize = 0;
    while i < cs.len()
        invariant
            cs@ == text@,
            i <= cs@.len(),
            escaped@ == seq!['"'] + nickel_escaped(cs@.take(i as int)),
        decreases cs@.len() - i,
    {
        let ch = cs[i];
        let ghost before = escaped@;
        if ch == '\\' {
            push_char(&mut escaped, '\\');
            push_char(&mut escaped, '\\');
        } else if ch == '"' {
            push_char(&mut escaped, '\\');
            push_char(&mut escaped, '"');
        } else if ch == '\n' {
            push_char(&mut escaped, '\\');
            push_char(&mut escaped, 'n');
        } else if ch == '\r' {
            push_char(&mut escaped, '\\');
            push_char(&mut escaped, 'r');
        } else if ch == '\t' {
            push_char(&mut escaped, '\\');
            push_char(&mut escaped, 't');
        } else if crate::text::is_control(ch) {
            let code = crate::text::char_code(ch);
            push_char(&mut escaped, '\\');
            push_char(&mut escaped, 'u');
            push_char(&mut escaped, '0');
            push_char(&mut escaped, '0');
            push_char(&mut escaped, hex_char(code / 16));
            push_char(&mut escaped, hex_char(code % 16));
        } else {
            push_char(&mut escaped, ch);
        }
        assert(cs@.take(i + 1).drop_last() =~= cs@.take(i as int));
        assert(escaped@ =~= before + nickel_escape(ch));
        i = i + 1;
    }
    push_char(&mut escaped, '"');
    assert(cs@.take(cs@.len() as int) =~= cs@);
    escaped
}

// ---------------------------------------------------------------------------
// AGENTS.md context message
// ---------------------------------------------------------------------------

/// One AGENTS.md file found for the session.
pub struct AgentsFile {
    /// Displayed path of the file.
    pub file_path: String,
    /// File content.
    pub content: String,
}

/// The fixed opening of the AGENTS.md context message.
pub open spec fn agents_header() -> Seq<char> {
    "# AGENTS.md instructions\n\nThe following instructions were loaded from AGENTS.md files.\nMore specific files usually override broader ones.\n\n"@
}

/// One file's block: its content wrapped in an `AGENTS_FILE` element that
/// names its path, the content ending with a line break.
pub open spec fn agents_block(path: Seq<char>, content: Seq<char>) -> Seq<char> {
    "<AGENTS_FILE path=\""@ + path + "\">\n"@ + content
        + (if content.len() > 0 && content.last() == '\n' { Seq::empty() } else { seq!['\n'] })
        + "</AGENTS_FILE>\n\n"@
}

/// The blocks of a list of files, in order.
pub open spec fn agents_blocks(files: Seq<AgentsFile>) -> Seq<char>
    decreases files.len(),
{
    if files.len() == 0 {
        Seq::empty()
    } else {
        agents_blocks(files.drop_last()) + agents_block(files.last().file_path@, files.last().content@)
    }
}

/// Whether `s` ends with a line break.
fn ends_with_newline(s: &str) -> (res: bool)
    ensures
        res == (s@.len() > 0 && s@.last() == '\n'),
{
    let n = s.unicode_len();
    if n == 0 {
        false
    } else {
        s.get_char(n - 1) == '\n'
    }
}

/// The context message listing the instructions of the given AGENTS.md
/// files, in order.
pub fn render_agents_context_message(files: &Vec<AgentsFile>) -> (res: String)
    ensures
        res@ == agents_header() + agents_blocks(files@),
{
    let mut text = owned(
        "# AGENTS.md instructions\n\nThe following instructions were loaded from AGENTS.md files.\nMore specific files usually override broader ones.\n\n",
    );
    let mut i: usize = 0;
    while i < files.len()
        invariant
            i <= files@.len(),
            text@ == agents_header() + agents_blocks(files@.take(i as int)),
        decreases files@.len() - i,
    {
        let ghost before = text@;
        let file = &files[i];
        push_str(&mut text, "<AGENTS_FILE path=\"");
        push_str(&mut text, file.file_path.as_str());
        push_str(&mut text, "\">\n");
        push_str(&mut text, file.content.as_str());
        if !ends_with_newline(file.content.as_str()) {
            push_char(&mut text, '\n');
        }
        push_str(&mut text, "</AGENTS_FILE>\n\n");
        assert(files@.take(i + 1).drop_last() =~= files@.take(i as int));
        assert(text@ =~= before + agents_block(file.file_path@, file.content@));
        i = i + 1;
    }
    assert(files@.take(files@.len() as int) =~= files@);
    text
}

// ---------------------------------------------------------------------------
// Conversation assembly
// ---------------------------------------------------------------------------

/// One entry on a branch of the session tree.
pub enum SessionEntry {
    /// User input items.
    UserInput { items: Vec<ContextItem> },
    /// Items the assistant produced.
    AssistantResponse { output_items: Vec<ContextItem> },
    /// Tool results returned to the model.
    ToolResults { items: Vec<ToolResultItem> },
    /// A compacted window that replaces all earlier history.
    Compaction { replacement_window: Vec<ContextItem> },
}

/// Tool result items as context items.
pub open spec fn as_tool_result_items(items: Seq<ToolResultItem>) -> Seq<ContextItem> {
    Seq::new(items.len(), |i: int| ContextItem::ToolResult(items[i]))
}

/// The prompt context of a branch, oldest entry first: the items of every
/// entry in order, a compaction replacing everything before it with its
/// replacement window.
pub open spec fn assembled(entries: Seq<SessionEntry>) -> Seq<ContextItem>
    decreases entries.len(),
{
    if entries.len() == 0 {
        Seq::empty()
    } else {
        let before = assembled(entries.drop_last());
        match entries.last() {
            SessionEntry::UserInput { items } => before + items@,
            SessionEntry::AssistantResponse { output_items } => before + output_items@,
            SessionEntry::ToolResults { items } => before + as_tool_result_items(items@),
            SessionEntry::Compaction { replacement_window } => replacement_window@,
        }
    }
}

/// Item-based prompt context of one conversation branch.
pub struct AssembledPromptContext {
    pub context_items: Vec<ContextItem>,
}

/// Converts the entries of a branch, oldest first, into prompt context
/// items.
pub fn assemble_prompt_context_from(branch: Vec<SessionEntry>) -> (res: AssembledPromptContext)
    ensures
        res.context_items@ == assembled(branch@),
{
    let ghost all = branch@;
    let mut context_items: Vec<ContextItem> = Vec::new();
    let total = branch.len();
    let mut rest = branch;
    let mut done: usize = 0;
    assert(all.take(0) =~= Seq::<SessionEntry>::empty());
    while rest.len() > 0
        invariant
            total == all.len(),
            done <= all.len(),
            rest@ == all.skip(done as int),
            context_items@ == assembled(all.take(done as int)),
        decreases rest@.len(),
    {
        let entry = rest.remove(0);
        assert(all.take(done + 1).drop_last() =~= all.take(done as int));
        assert(all.take(done + 1).last() == entry);
        match entry {
            SessionEntry::UserInput { mut items } => {
                context_items.append(&mut items);
            },
            SessionEntry::AssistantResponse { mut output_items } => {
                context_items.append(&mut output_items);
            },
            SessionEntry::ToolResults { items } => {
                let ghost before = context_items@;
                let ghost src = items@;
                let n = items.len();
                let mut src_items = items;
                let mut k: usize = 0;
                while src_items.len() > 0
                    invariant
                        n == src.len(),
                        k <= src.len(),
                        src_items@ == src.skip(k as int),
                        context_items@ == before + as_tool_result_items(src.take(k as int)),
                    decreases src_items@.len(),
                {
                    let r = src_items.remove(0);
                    context_items.push(ContextItem::ToolResult(r));
                    assert(as_tool_result_items(src.take(k + 1)) =~= as_tool_result_items(src.take(k as int)).push(ContextItem::ToolResult(r)));
                    assert(src.skip(k as int).drop_first() =~= src.skip(k + 1));
                    k = k + 1;
                }
                assert(src.take(k as int) =~= src);
            },
            SessionEntry::Compaction { replacement_window } => {
                context_items = replacement_window;
            },
        }
        assert(all.skip(done as int).drop_first() =~= all.skip(done + 1));
        done = done + 1;
    }
    assert(all.take(done as int) =~= all);
    AssembledPromptContext { context_items }
}

/// The items of a branch, oldest entry first.
pub fn assemble_conversation_from(branch: Vec<SessionEntry>) -> (res: Vec<ContextItem>)
    ensures
        res@ == assembled(branch@),
{
    assemble_prompt_context_from(branch).context_items
}

/// Tool results go back to the model: the context of a branch ending in
/// tool results `r1..rn` is the context of the earlier entries followed by
/// `ToolResult(r1)..ToolResult(rn)`, so it grows by exactly `n` items.
pub proof fn law_tool_results_follow_earlier_context(earlier: Seq<SessionEntry>, items: Vec<ToolResultItem>)
    ensures
        assembled(earlier.push(SessionEntry::ToolResults { items })).len() == assembled(earlier).len() + items@.len(),
        assembled(earlier.push(SessionEntry::ToolResults { items })).take(assembled(earlier).len() as int) == assembled(earlier),
        forall|i: int| 0 <= i < items@.len() ==>
            #[trigger] assembled(earlier.push(SessionEntry::ToolResults { items }))[assembled(earlier).len() + i]
                == ContextItem::ToolResult(items@[i]),
{
    let all = earlier.push(SessionEntry::ToolResults { items });
    assert(all.drop_last() =~= earlier);
    let before = assembled(earlier);
    assert(assembled(all).take(before.len() as int) =~= before);
}

/// User input and assistant output go to the model as they are: the
/// context of a branch ending in such an entry is the context of the
/// earlier entries followed by the entry's items.
pub proof fn law_messages_follow_earlier_context(earlier: Seq<SessionEntry>, items: Vec<ContextItem>)
    ensures
        assembled(earlier.push(SessionEntry::UserInput { items })).len() == assembled(earlier).len() + items@.len(),
        assembled(earlier.push(SessionEntry::UserInput { items })).take(assembled(earlier).len() as int) == assembled(earlier),
        assembled(earlier.push(SessionEntry::UserInput { items })).skip(assembled(earlier).len() as int) == items@,
        assembled(earlier.push(SessionEntry::AssistantResponse { output_items: items })).len() == assembled(earlier).len() + items@.len(),
        assembled(earlier.push(SessionEntry::AssistantResponse { output_items: items })).take(assembled(earlier).len() as int) == assembled(earlier),
        assembled(earlier.push(SessionEntry::AssistantResponse { output_items: items })).skip(assembled(earlier).len() as int) == items@,
{
    let u = earlier.push(SessionEntry::UserInput { items });
    let a = earlier.push(SessionEntry::AssistantResponse { output_items: items });
    assert(u.drop_last() =~= earlier);
    assert(a.drop_last() =~= earlier);
    let before = assembled(earlier);
    assert(assembled(u).take(before.len() as int) =~= before);
    assert(assembled(u).skip(before.len() as int) =~= items@);
    assert(assembled(a).take(before.len() as int) =~= before);
    assert(assembled(a).skip(before.len() as int) =~= items@);
}

/// Everything before the last compaction of a branch is gone from its
/// prompt context: the context of a branch ending in a compaction and
/// then more entries is the replacement window followed by what the later
/// entries add, whatever came before the compaction.
pub proof fn law_compaction_discards_earlier_history(
    earlier: Seq<SessionEntry>,
    window: Vec<ContextItem>,
    later: Seq<SessionEntry>,
)
    ensures
        assembled(earlier + seq![SessionEntry::Compaction { replacement_window: window }] + later)
            == assembled(seq![SessionEntry::Compaction { replacement_window: window }] + later),
    decreases later.len(),
{
    let c = seq![SessionEntry::Compaction { replacement_window: window }];
    if later.len() == 0 {
        assert(earlier + c + later =~= (earlier + c));
        assert((earlier + c).drop_last() =~= earlier);
        assert(c + later =~= c);
        assert(c.drop_last() =~= Seq::<SessionEntry>::empty());
    } else {
        law_compaction_discards_earlier_history(earlier, window, later.drop_last());
        assert((earlier + c + later).drop_last() =~= earlier + c + later.drop_last());
        assert((c + later).drop_last() =~= c + later.drop_last());
        assert((earlier + c + later).last() == later.last());
        assert((c + later).last() == later.last());
    }
}

// ---------------------------------------------------------------------------
// Calendar date without a date library
// ---------------------------------------------------------------------------

/// A Gregorian leap year.
pub open spec fn is_leap(y: int) -> bool {
    y % 4 == 0 && (y % 100 != 0 || y % 400 == 0)
}

/// Days in year `y`.
pub open spec fn year_len(y: int) -> int {
    if is_leap(y) { 366 } else { 365 }
}

/// Days from 1970-01-01 to the first day of year `1970 + n`.
pub open spec fn days_before_year(n: nat) -> int
    decreases n,
{
    if n == 0 { 0 } else { days_before_year((n - 1) as nat) + year_len(1970 + n - 1) }
}

/// Days in month `m` (1 to 12).
pub open spec fn month_len(leap: bool, m: int) -> int {
    if m == 2 {
        if leap { 29 } else { 28 }
    } else if m == 4 || m == 6 || m == 9 || m == 11 {
        30
    } else {
        31
    }
}

/// Days in the first `n` months of a year.
pub open spec fn days_before_month(leap: bool, n: nat) -> int
    decreases n,
{
    if n == 0 { 0 } else { days_before_month(leap, (n - 1) as nat) + month_len(leap, n as int) }
}

/// `(y, m, d)` is the calendar date `days` days after 1970-01-01.
pub open spec fn civil_date(days: int, y: int, m: int, d: int) -> bool {
    &&& y >= 1970
    &&& 1 <= m <= 12
    &&& 1 <= d <= month_len(is_leap(y), m)
    &&& days == days_before_year((y - 1970) as nat) + days_before_month(is_leap(y), (m - 1) as nat) + d - 1
}

proof fn lemma_years_increase(a: nat, b: nat)
    requires
        a < b,
    ensures
        days_before_year(a) + year_len(1970 + a as int) <= days_before_year(b),
    decreases b,
{
    if a + 1 < b {
        lemma_years_increase(a, (b - 1) as nat);
    }
}

proof fn lemma_months_increase(leap: bool, a: nat, b: nat)
    requires
        a < b,
    ensures
        days_before_month(leap, a) + month_len(leap, a + 1int) <= days_before_month(leap, b),
    decreases b,
{
    if a + 1 < b {
        lemma_months_increase(leap, a, (b - 1) as nat);
    }
}

proof fn lemma_day_in_year(days: int, y: int, m: int, d: int)
    requires
        civil_date(days, y, m, d),
    ensures
        days_before_year((y - 1970) as nat) <= days < days_before_year((y - 1970) as nat) + year_len(y),
{
    let leap = is_leap(y);
    assert(days_before_month(leap, 12) == year_len(y)) by {
        reveal_with_fuel(days_before_month, 13);
    }
    if m < 12 {
        lemma_months_increase(leap, (m - 1) as nat, 12);
    } else {
        assert(days_before_month(leap, 12) == days_before_month(leap, 11) + month_len(leap, 12));
    }
    lemma_months_nonneg(leap, (m - 1) as nat);
}

proof fn lemma_months_nonneg(leap: bool, n: nat)
    ensures
        days_before_month(leap, n) >= 0,
    decreases n,
{
    if n > 0 {
        lemma_months_nonneg(leap, (n - 1) as nat);
    }
}

/// Each day since 1970-01-01 has exactly one calendar date: two dates
/// naming the same day are the same date.
pub proof fn law_civil_date_unique(days: int, y1: int, m1: int, d1: int, y2: int, m2: int, d2: int)
    requires
        civil_date(days, y1, m1, d1),
        civil_date(days, y2, m2, d2),
    ensures
        y1 == y2 && m1 == m2 && d1 == d2,
{
    lemma_day_in_year(days, y1, m1, d1);
    lemma_day_in_year(days, y2, m2, d2);
    if y1 < y2 {
        lemma_years_increase((y1 - 1970) as nat, (y2 - 1970) as nat);
    } else if y2 < y1 {
        lemma_years_increase((y2 - 1970) as nat, (y1 - 1970) as nat);
    }
    assert(y1 == y2);
    let leap = is_leap(y1);
    if m1 < m2 {
        lemma_months_increase(leap, (m1 - 1) as nat, (m2 - 1) as nat);
    } else if m2 < m1 {
        lemma_months_increase(leap, (m2 - 1) as nat, (m1 - 1) as nat);
    }
}

/// A number with at least two digits, zero padded.
pub open spec fn pad2(n: nat) -> Seq<char> {
    if n < 10 { seq!['0'] + decimal(n) } else { decimal(n) }
}

/// `YYYY-MM-DD`.
pub open spec fn date_text(y: nat, m: nat, d: nat) -> Seq<char> {
    decimal(y) + seq!['-'] + pad2(m) + seq!['-'] + pad2(d)
}

fn is_leap_year(y: i64) -> (res: bool)
    requires
        y >= 0,
    ensures
        res == is_leap(y as int),
{
    y % 4 == 0 && (y % 100 != 0 || y % 400 == 0)
}

fn month_days(leap: bool, m: u32) -> (res: u32)
    requires
        1 <= m <= 12,
    ensures
        res == month_len(leap, m as int),
{
    if m == 2 {
        if leap { 29 } else { 28 }
    } else if m == 4 || m == 6 || m == 9 || m == 11 {
        30
    } else {
        31
    }
}

/// The calendar date `days` days after 1970-01-01, as year, month and day.
pub fn civil_from_days(days: u64) -> (res: (i64, u32, u32))
    requires
        days <= u64::MAX / 86400,
    ensures
        civil_date(days as int, res.0 as int, res.1 as int, res.2 as int),
{
    let mut y: i64 = 1970;
    let mut remaining: i64 = days as i64;
    loop
        invariant
            days <= u64::MAX / 86400,
            y >= 1970,
            remaining >= 0,
            y - 1970 <= days as int - remaining,
            days as int == days_before_year((y - 1970) as nat) + remaining,
        ensures
            y >= 1970,
            remaining >= 0,
            remaining < year_len(y as int),
            days as int == days_before_year((y - 1970) as nat) + remaining,
        decreases remaining,
    {
        let leap = is_leap_year(y);
        let days_in_year: i64 = if leap { 366 } else { 365 };
        if remaining < days_in_year {
            break;
        }
        remaining = remaining - days_in_year;
        assert(days_before_year((y + 1 - 1970) as nat) == days_before_year((y - 1970) as nat) + year_len(y as int));
        y = y + 1;
    }
    let leap = is_leap_year(y);
    assert(remaining < year_len(y as int));
    let mut m: u32 = 1;
    loop
        invariant
            1 <= m <= 12,
            leap == is_leap(y as int),
            remaining >= 0,
            days_before_month(leap, (m - 1) as nat) + remaining < year_len(y as int),
            days as int == days_before_year((y - 1970) as nat) + days_before_month(leap, (m - 1) as nat) + remaining,
        ensures
            1 <= m <= 12,
            remaining >= 0,
            remaining < month_len(leap, m as int),
            days as int == days_before_year((y - 1970) as nat) + days_before_month(leap, (m - 1) as nat) + remaining,
        decreases 12 - m,
    {
        let md = month_days(leap, m) as i64;
        if remaining < md {
            break;
        }
        if m == 12 {
            assert(days_before_month(leap, 12) == year_len(y as int)) by {
                reveal_with_fuel(days_before_month, 13);
            }
            assert(false);
        }
        remaining = remaining - md;
        assert(days_before_month(leap, m as nat) == days_before_month(leap, (m - 1) as nat) + month_len(leap, m as int));
        m = m + 1;
    }
    (y, m, (remaining + 1) as u32)
}

/// Appends `n` with at least two digits, zero padded.
fn push_pad2(s: &mut String, n: u32)
    ensures
        final(s)@ == old(s)@ + pad2(n as nat),
{
    if n < 10 {
        push_char(s, '0');
    }
    push_decimal(s, n as u128);
    assert(final(s)@ =~= old(s)@ + pad2(n as nat));
}

/// The `YYYY-MM-DD` date of a time given in seconds since the UNIX epoch.
pub fn date_from_unix_secs(secs: u64) -> (res: String)
    ensures
        exists|y: int, m: int, d: int|
            #[trigger] civil_date((secs / 86400) as int, y, m, d) && res@ == date_text(y as nat, m as nat, d as nat),
{
    let (y, m, d) = civil_from_days(secs / 86400);
    let mut out = String::new();
    push_decimal(&mut out, y as u128);
    push_char(&mut out, '-');
    push_pad2(&mut out, m);
    push_char(&mut out, '-');
    push_pad2(&mut out, d);
    assert(out@ =~= date_text(y as nat, m as nat, d as nat));
    out
}

/// The day a clock reading in seconds since the UNIX epoch falls on; the
/// epoch day when there is no reading.
pub open spec fn clock_day(reading: Option<u64>) -> int {
    (match reading {
        Some(s) => s as int,
        None => 0int,
    }) / 86400
}

/// The `YYYY-MM-DD` date (UTC) of a clock reading in seconds since the
/// UNIX epoch, the epoch date when the clock read before the epoch.
pub fn date_from_clock(reading: Option<u64>) -> (res: String)
    ensures
        exists|y: int, m: int, d: int|
            #[trigger] civil_date(clock_day(reading), y, m, d) && res@ == date_text(y as nat, m as nat, d as nat),
{
    let secs = match reading {
        Some(s) => s,
        None => 0,
    };
    let res = date_from_unix_secs(secs);
    assert(clock_day(reading) == (secs / 86400) as int);
    res
}

/// The current date as `YYYY-MM-DD` (UTC), the epoch date for a clock that
/// reads before the epoch: [`date_from_clock`] of the system clock's
/// reading, whatever it is.
pub fn chrono_free_date() -> (res: String)
    ensures
        exists|reading: Option<u64>, y: int, m: int, d: int|
            #[trigger] civil_date(clock_day(reading), y, m, d) && res@ == date_text(y as nat, m as nat, d as nat),
{
    let reading = match crate::proto::since_unix_epoch(&crate::proto::system_time_now()) {
        Some(elapsed) => Some(crate::proto::whole_seconds(&elapsed)),
        None => None,
    };
    let res = date_from_clock(reading);
    assert(exists|y: int, m: int, d: int|
        #[trigger] civil_date(clock_day(reading), y, m, d) && res@ == date_text(y as nat, m as nat, d as nat));
    res
}

} // verus!

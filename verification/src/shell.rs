//! Shell extension tools: which handler a tool call goes to, the `read`
//! tool's argument checks, line slicing and range text, and the `ls`
//! tool's listing text.

use vstd::prelude::*;

use crate::cbor::{CborValue, CborView};
use crate::text::{chars_of, decimal, join, key_is, keyed, lemma_keyed_insert, owned, push_char, push_decimal, push_str, seq_lt, str_eq, views};
use crate::tool::{
    display, error_of, final_result_of, no_stats, ok_display, ToolDisplay, ToolDisplayStatus, ToolOutcome, ToolResultKind,
    ToolStarted, ToolType, ToolUseStats,
};

verus! {

broadcast use vstd::string::group_string_axioms;

// ---------------------------------------------------------------------------
// Tool routing
// ---------------------------------------------------------------------------

pub const READ_TOOL_NAME: &'static str = "read";
pub const EDIT_TOOL_NAME: &'static str = "edit";
pub const APPLY_PATCH_TOOL_NAME: &'static str = "apply_patch";
pub const SHELL_TOOL_NAME: &'static str = "shell";
pub const GPT_SHELL_TOOL_NAME: &'static str = "gpt_shell";
pub const GREP_TOOL_NAME: &'static str = "grep";
pub const FIND_TOOL_NAME: &'static str = "find";
pub const LS_TOOL_NAME: &'static str = "ls";

/// The handler a shell-extension tool call goes to.
#[derive(Clone, Copy, Debug, PartialEq, Eq, Structural)]
pub enum ShellTool {
    Read,
    Edit,
    ApplyPatch,
    Grep,
    Find,
    Ls,
    /// A shell command, run with a progress event first.
    Shell,
    /// Answered with an `unknown tool` error.
    Unknown,
}

/// The handler of a tool name.
pub open spec fn tool_for(name: Seq<char>) -> ShellTool {
    if name == "read"@ {
        ShellTool::Read
    } else if name == "edit"@ {
        ShellTool::Edit
    } else if name == "apply_patch"@ {
        ShellTool::ApplyPatch
    } else if name == "grep"@ {
        ShellTool::Grep
    } else if name == "find"@ {
        ShellTool::Find
    } else if name == "ls"@ {
        ShellTool::Ls
    } else if name == "shell"@ || name == "gpt_shell"@ {
        ShellTool::Shell
    } else {
        ShellTool::Unknown
    }
}

/// Routes a tool call by its tool name.
pub fn route_tool(name: &str) -> (res: ShellTool)
    ensures
        res == tool_for(name@),
{
    if str_eq(name, READ_TOOL_NAME) {
        ShellTool::Read
    } else if str_eq(name, EDIT_TOOL_NAME) {
        ShellTool::Edit
    } else if str_eq(name, APPLY_PATCH_TOOL_NAME) {
        ShellTool::ApplyPatch
    } else if str_eq(name, GREP_TOOL_NAME) {
        ShellTool::Grep
    } else if str_eq(name, FIND_TOOL_NAME) {
        ShellTool::Find
    } else if str_eq(name, LS_TOOL_NAME) {
        ShellTool::Ls
    } else if str_eq(name, SHELL_TOOL_NAME) || str_eq(name, GPT_SHELL_TOOL_NAME) {
        ShellTool::Shell
    } else {
        ShellTool::Unknown
    }
}

// ---------------------------------------------------------------------------
// Tool failures
// ---------------------------------------------------------------------------

/// The first line of a message.
pub open spec fn first_line(s: Seq<char>) -> Seq<char>
    decreases s.len(),
{
    if s.len() == 0 {
        s
    } else if s.contains('\n') {
        if s.last() == '\n' && !s.drop_last().contains('\n') { s.drop_last() } else { first_line(s.drop_last()) }
    } else {
        s
    }
}

/// The characters of `s` before its first line break.
fn first_line_of(s: &str) -> (res: String)
    ensures
        res@ == first_line(s@),
{
    let cs = chars_of(s);
    let mut out = String::new();
    let mut i: usize = 0;
    while i < cs.len() && cs[i] != '\n'
        invariant
            cs@ == s@,
            i <= cs@.len(),
            out@ == cs@.subrange(0, i as int),
            forall|k: int| 0 <= k < i ==> cs@[k] != '\n',
        decreases cs@.len() - i,
    {
        push_char(&mut out, cs[i]);
        assert(out@ =~= cs@.subrange(0, i + 1));
        i = i + 1;
    }
    proof {
        lemma_first_line(s@, i as int);
    }
    out
}

proof fn lemma_first_line(s: Seq<char>, i: int)
    requires
        0 <= i <= s.len(),
        forall|k: int| 0 <= k < i ==> s[k] != '\n',
        i == s.len() || s[i] == '\n',
    ensures
        first_line(s) == s.subrange(0, i),
    decreases s.len(),
{
    if i == s.len() {
        assert(!s.contains('\n'));
        assert(s.subrange(0, i) =~= s);
    } else {
        assert(s.contains('\n'));
        let d = s.drop_last();
        if s.len() - 1 == i {
            assert(!d.contains('\n'));
            assert(d =~= s.subrange(0, i));
        } else {
            assert(d[i] == '\n');
            assert(d.contains('\n'));
            lemma_first_line(d, i);
            assert(d.subrange(0, i) =~= s.subrange(0, i));
        }
    }
}

/// A failed tool call: its message, optional structured details, and what
/// the UI shows for it.
#[derive(Debug)]
pub struct ToolFailure {
    pub message: String,
    pub details: Option<CborValue>,
    pub display: ToolDisplay,
}

impl ToolFailure {
    /// A failure whose display shows the message's whole first line, with
    /// no arguments, statistics or chips.
    pub fn new(message: &str) -> (res: Self)
        ensures
            res.message@ == message@,
            res.details is None,
            res.display.status == ToolDisplayStatus::Error,
            res.display.status_text@ == first_line(message@),
            res.display.args@ == Seq::<char>::empty(),
            res.display.stats == no_stats(),
            res.display.info_chips@.len() == 0,
    {
        let first = first_line_of(message);
        ToolFailure { message: owned(message), details: None, display: display(ToolDisplayStatus::Error, first.as_str()) }
    }

    /// This failure with its display showing the call's arguments `args`.
    pub fn with_args(self, args: String) -> (res: Self)
        ensures
            res.message@ == self.message@,
            res.details == self.details,
            res.display.status == self.display.status,
            res.display.args@ == args@,
            res.display.status_text@ == self.display.status_text@,
            res.display.stats == self.display.stats,
            res.display.info_chips@ == self.display.info_chips@,
    {
        let mut f = self;
        f.display.args = args;
        f
    }
}

/// What a tool handler returns on success: the result payload and what
/// the UI shows.
#[derive(Debug)]
pub struct ToolOutput {
    pub result: CborValue,
    pub display: ToolDisplay,
}

/// The event that ends the call `invoke` after its handler answered
/// `outcome`: a final function-tool result with the handler's payload and
/// display, or an error with the failure's message, details and display;
/// either way for the call's originator.
pub fn wrap_outcome(invoke: ToolStarted, outcome: Result<ToolOutput, ToolFailure>) -> (res: ToolOutcome)
    ensures
        match outcome {
            Ok(out) => {
                &&& final_result_of(res, invoke, invoke.originator)
                &&& res matches ToolOutcome::Result { result, display, .. } && result@ == out.result@ && display == Some(out.display)
            },
            Err(f) => {
                &&& error_of(res, invoke, invoke.originator, f.message@)
                &&& res matches ToolOutcome::Error { details, display, .. } && details == f.details && display == Some(f.display)
            },
        },
{
    match outcome {
        Ok(out) => ToolOutcome::Result {
            call_id: invoke.call_id,
            tool_name: invoke.tool_name,
            tool_type: ToolType::Function,
            result: out.result,
            kind: ToolResultKind::Final,
            display: Some(out.display),
            originator: invoke.originator,
        },
        Err(f) => ToolOutcome::Error {
            call_id: invoke.call_id,
            tool_name: invoke.tool_name,
            tool_type: ToolType::Function,
            message: f.message,
            details: f.details,
            display: Some(f.display),
            originator: invoke.originator,
        },
    }
}

/// The error that answers a call of a tool this extension does not have:
/// `unknown tool`, with no details and no display, for the call's
/// originator.
pub fn unknown_tool_outcome(invoke: ToolStarted) -> (res: ToolOutcome)
    ensures
        error_of(res, invoke, invoke.originator, "unknown tool"@),
        res matches ToolOutcome::Error { details, display, .. } && details is None && display is None,
{
    ToolOutcome::Error {
        call_id: invoke.call_id,
        tool_name: invoke.tool_name,
        tool_type: ToolType::Function,
        message: owned("unknown tool"),
        details: None,
        display: None,
        originator: invoke.originator,
    }
}

/// The progress message sent before a shell command runs.
pub const SHELL_PROGRESS_MESSAGE: &'static str = "running shell command";

// ---------------------------------------------------------------------------
// `read`: arguments and range text
// ---------------------------------------------------------------------------

/// The first line to read: 1 when absent; values below 1 are refused.
pub fn parse_read_start_line(value: Option<i64>) -> (res: Result<usize, ToolFailure>)
    ensures
        match value {
            None => res == Ok::<usize, ToolFailure>(1),
            Some(v) => if v < 1 {
                res matches Err(f) && f.message@ == "start_line must be >= 1"@
            } else {
                res == Ok::<usize, ToolFailure>(v as usize)
            },
        },
{
    match value {
        None => Ok(1),
        Some(v) => {
            if v < 1 {
                Err(ToolFailure::new("start_line must be >= 1"))
            } else {
                Ok(v as usize)
            }
        },
    }
}

/// The number of lines to read, if limited; values below 1 are refused.
pub fn parse_read_line_count(value: Option<i64>) -> (res: Result<Option<usize>, ToolFailure>)
    ensures
        match value {
            None => res == Ok::<Option<usize>, ToolFailure>(None),
            Some(v) => if v < 1 {
                res matches Err(f) && f.message@ == "line_count must be >= 1"@
            } else {
                res == Ok::<Option<usize>, ToolFailure>(Some(v as usize))
            },
        },
{
    match value {
        None => Ok(None),
        Some(v) => {
            if v < 1 {
                Err(ToolFailure::new("line_count must be >= 1"))
            } else {
                Ok(Some(v as usize))
            }
        },
    }
}

/// `start + count - 1`, saturating.
pub open spec fn range_end(start: usize, count: usize) -> nat {
    let sum: int = if start + count > usize::MAX { usize::MAX as int } else { start + count };
    if sum >= 1 { (sum - 1) as nat } else { 0 }
}

/// The range shown for a read: `start..end`, open ends left out.
pub open spec fn read_range_text(start_line: Option<usize>, line_count: Option<usize>) -> Seq<char> {
    match (start_line, line_count) {
        (None, None) => ".."@,
        (Some(s), None) => decimal(s as nat) + ".."@,
        (None, Some(c)) => ".."@ + decimal(c as nat),
        (Some(s), Some(c)) => decimal(s as nat) + ".."@ + decimal(range_end(s, c)),
    }
}

/// The text of a read range.
pub fn format_read_range(start_line: Option<usize>, line_count: Option<usize>) -> (res: String)
    ensures
        res@ == read_range_text(start_line, line_count),
{
    let mut out = String::new();
    match (start_line, line_count) {
        (None, None) => push_str(&mut out, ".."),
        (Some(s), None) => {
            push_decimal(&mut out, s as u128);
            push_str(&mut out, "..");
        },
        (None, Some(c)) => {
            push_str(&mut out, "..");
            push_decimal(&mut out, c as u128);
        },
        (Some(s), Some(c)) => {
            let end = s.saturating_add(c).saturating_sub(1);
            push_decimal(&mut out, s as u128);
            push_str(&mut out, "..");
            push_decimal(&mut out, end as u128);
        },
    }
    out
}

/// The line-ending label of a file: which of LF and CRLF endings it has.
pub open spec fn line_ending_text(saw_lf: bool, saw_crlf: bool) -> Seq<char> {
    if !saw_lf && !saw_crlf {
        "none"@
    } else if saw_lf && !saw_crlf {
        "lf"@
    } else if !saw_lf && saw_crlf {
        "crlf"@
    } else {
        "mixed"@
    }
}

/// The line-ending label.
pub fn line_ending_label(saw_lf: bool, saw_crlf: bool) -> (res: &'static str)
    ensures
        res@ == line_ending_text(saw_lf, saw_crlf),
{
    match (saw_lf, saw_crlf) {
        (false, false) => "none",
        (true, false) => "lf",
        (false, true) => "crlf",
        (true, true) => "mixed",
    }
}

/// A slice of a file's lines, numbered.
#[derive(Debug)]
pub struct ReadSlice {
    /// The kept lines, each as `<number> <text>`, separated by line breaks.
    pub content: String,
    pub start_line: usize,
    /// Number of lines kept.
    pub line_count: usize,
    pub ends_with_newline: bool,
    pub line_ending: String,
    /// Lines in the whole file.
    pub total_lines: usize,
}

/// One kept line: its number, a space, its text.
pub open spec fn numbered(n: nat, line: Seq<char>) -> Seq<char> {
    decimal(n) + seq![' '] + line
}

/// A line as read, without its line break (and the `\r` before it).
pub open spec fn without_line_break(line: Seq<char>) -> Seq<char> {
    let a = if line.len() > 0 && line.last() == '\n' { line.drop_last() } else { line };
    if a.len() > 0 && a.last() == '\r' { a.drop_last() } else { a }
}

/// The state after reading `lines` (each as read, with its line break),
/// keeping lines `start_line ..` up to `take` of them.
pub open spec fn slice_state(lines: Seq<Seq<char>>, start_line: nat, take: nat) -> (Seq<Seq<char>>, nat, bool, bool, bool)
    decreases lines.len(),
{
    if lines.len() == 0 {
        (Seq::empty(), 0, false, false, false)
    } else {
        let (kept, total, saw_lf, saw_crlf, _ends) = slice_state(lines.drop_last(), start_line, take);
        let line = lines.last();
        let n = total + 1;
        let ends_nl = line.len() > 0 && line.last() == '\n';
        let crlf = line.len() >= 2 && line.last() == '\n' && line[line.len() - 2] == '\r';
        let kept2 = if n >= start_line && kept.len() < take { kept.push(numbered(n as nat, without_line_break(line))) } else { kept };
        (kept2, n as nat, saw_lf || (ends_nl && !crlf), saw_crlf || crlf, ends_nl)
    }
}

/// The first line a window keeps: `start_line`, and line 1 for 0.
pub open spec fn window_start(start_line: nat) -> nat {
    if start_line == 0 { 1 } else { start_line }
}

/// How many of `total` lines a window from `start_line` taking at most
/// `take` lines keeps.
pub open spec fn window_len(total: nat, start_line: nat, take: nat) -> nat {
    let avail: int = total - window_start(start_line) + 1;
    if avail <= 0 { 0 } else if avail < take { avail as nat } else { take }
}

/// The numbered lines a window keeps: lines `start_line ..`, at most `take`
/// of them, each after its number.
pub open spec fn window_lines(lines: Seq<Seq<char>>, start_line: nat, take: nat) -> Seq<Seq<char>> {
    Seq::new(
        window_len(lines.len(), start_line, take),
        |i: int| numbered((window_start(start_line) + i) as nat, without_line_break(lines[window_start(start_line) + i - 1])),
    )
}

/// Reading a file line by line keeps exactly the window of lines asked
/// for, numbered from their place in the file, and counts every line.
pub proof fn law_slice_keeps_the_window(lines: Seq<Seq<char>>, start_line: nat, take: nat)
    ensures
        slice_state(lines, start_line, take).0 == window_lines(lines, start_line, take),
        slice_state(lines, start_line, take).1 == lines.len(),
    decreases lines.len(),
{
    if lines.len() == 0 {
        assert(window_lines(lines, start_line, take) =~= Seq::<Seq<char>>::empty());
    } else {
        let prev = lines.drop_last();
        law_slice_keeps_the_window(prev, start_line, take);
        let kept = slice_state(prev, start_line, take).0;
        let n = lines.len();
        let w = window_lines(lines, start_line, take);
        let wp = window_lines(prev, start_line, take);
        let st = window_start(start_line);
        assert forall|i: int| 0 <= i < wp.len() implies #[trigger] wp[i] == w[i] by {
            assert(prev[st + i - 1] == lines[st + i - 1]);
        }
        if n >= start_line && kept.len() < take {
            assert(w.len() == wp.len() + 1);
            assert(st + wp.len() == n);
            assert(w[wp.len() as int] == numbered(n as nat, without_line_break(lines.last())));
            assert(slice_state(lines, start_line, take).0 =~= w);
        } else {
            assert(w.len() == wp.len());
            assert(slice_state(lines, start_line, take).0 =~= w);
        }
    }
}

/// Accumulates a line slice while a file is read line by line, without
/// holding the whole file.
pub struct SliceReader {
    start_line: usize,
    take: usize,
    kept_lines: Vec<String>,
    total_lines: usize,
    saw_lf: bool,
    saw_crlf: bool,
    ends_with_newline: bool,
    lines_read: Ghost<Seq<Seq<char>>>,
}

impl SliceReader {
    /// The reader is in the state its lines so far lead to.
    pub closed spec fn wf(&self) -> bool {
        let (kept, total, lf, crlf, ends) = slice_state(self.lines_read@, self.start_line as nat, self.take as nat);
        &&& views(self.kept_lines@) == kept
        &&& self.total_lines == total
        &&& self.saw_lf == lf
        &&& self.saw_crlf == crlf
        &&& self.ends_with_newline == ends
    }

    /// The lines fed so far.
    pub closed spec fn lines(&self) -> Seq<Seq<char>> {
        self.lines_read@
    }

    /// Lines read so far.
    pub closed spec fn count(&self) -> nat {
        self.total_lines as nat
    }

    /// The line window: lines from `start_line` on, at most `line_count`
    /// of them (all when absent).
    pub closed spec fn window(&self) -> (nat, nat) {
        (self.start_line as nat, self.take as nat)
    }

    /// A reader for lines `start_line ..`, at most `line_count` of them.
    pub fn new(start_line: usize, line_count: Option<usize>) -> (res: Self)
        ensures
            res.wf(),
            res.lines() == Seq::<Seq<char>>::empty(),
            res.window() == (start_line as nat, match line_count { Some(c) => c as nat, None => usize::MAX as nat }),
    {
        let take = match line_count {
            Some(c) => c,
            None => usize::MAX,
        };
        let r = SliceReader {
            start_line,
            take,
            kept_lines: Vec::new(),
            total_lines: 0,
            saw_lf: false,
            saw_crlf: false,
            ends_with_newline: false,
            lines_read: Ghost(Seq::empty()),
        };
        assert(views(r.kept_lines@) =~= Seq::<Seq<char>>::empty());
        r
    }

    /// Takes in the next line as read, line break included.
    #[verifier::rlimit(40)]
    pub fn feed(&mut self, line: &str)
        requires
            old(self).wf(),
            old(self).count() < usize::MAX,
        ensures
            final(self).wf(),
            final(self).lines() == old(self).lines().push(line@),
            final(self).window() == old(self).window(),
            final(self).count() == old(self).count() + 1,
    {
        let cs = chars_of(line);
        let n = cs.len();
        let ends_nl = n > 0 && cs[n - 1] == '\n';
        let crlf = n >= 2 && cs[n - 1] == '\n' && cs[n - 2] == '\r';
        self.total_lines = self.total_lines + 1;
        self.ends_with_newline = ends_nl;
        if crlf {
            self.saw_crlf = true;
        } else if ends_nl {
            self.saw_lf = true;
        }
        let ghost before = views(self.kept_lines@);
        if self.total_lines >= self.start_line && self.kept_lines.len() < self.take {
            let mut end = n;
            if end > 0 && cs[end - 1] == '\n' {
                end = end - 1;
            }
            if end > 0 && cs[end - 1] == '\r' {
                end = end - 1;
            }
            let mut text = String::new();
            push_decimal(&mut text, self.total_lines as u128);
            push_char(&mut text, ' ');
            let mut i: usize = 0;
            let ghost head = text@;
            while i < end
                invariant
                    end <= cs@.len(),
                    i <= end,
                    text@ == head + cs@.subrange(0, i as int),
                decreases end - i,
            {
                push_char(&mut text, cs[i]);
                assert(text@ =~= head + cs@.subrange(0, i + 1));
                i = i + 1;
            }
            proof {
                let l = line@;
                let a = if l.len() > 0 && l.last() == '\n' { l.drop_last() } else { l };
                assert(a =~= cs@.subrange(0, if ends_nl { n as int - 1 } else { n as int }));
                assert(without_line_break(l) =~= cs@.subrange(0, end as int));
            }
            assert(text@ =~= numbered(self.total_lines as nat, without_line_break(line@)));
            let ghost tv = text@;
            self.kept_lines.push(text);
            assert(views(self.kept_lines@) =~= before.push(tv));
        }
        proof {
            self.lines_read@ = self.lines_read@.push(line@);
            assert(self.lines_read@.drop_last() =~= old(self).lines_read@);
        }
    }

    /// The slice read: the kept lines joined by line breaks, the number of
    /// lines kept and read, and the line-ending facts.
    pub fn finish(self) -> (res: ReadSlice)
        requires
            self.wf(),
        ensures
            ({
                let (kept, total, lf, crlf, ends) = slice_state(self.lines(), self.window().0, self.window().1);
                &&& res.content@ == join(kept, seq!['\n'])
                &&& res.line_count == kept.len()
                &&& res.total_lines == total
                &&& res.ends_with_newline == ends
                &&& res.line_ending@ == line_ending_text(lf, crlf)
                &&& res.start_line == self.window().0
            }),
    {
        proof {
            reveal_strlit("\n");
        }
        assert("\n"@ =~= seq!['\n']);
        let content = crate::text::join_strings(&self.kept_lines, "\n");
        ReadSlice {
            content,
            start_line: self.start_line,
            line_count: self.kept_lines.len(),
            ends_with_newline: self.ends_with_newline,
            line_ending: owned(line_ending_label(self.saw_lf, self.saw_crlf)),
            total_lines: self.total_lines,
        }
    }
}

/// The argument text shown for a read: the path, a space, and the range.
pub open spec fn read_display_text(path: Seq<char>, start_line_arg: Option<i64>, start_line: usize, line_count: Option<usize>) -> Seq<char> {
    path + seq![' '] + read_range_text(if start_line_arg is Some { Some(start_line) } else { None }, line_count)
}

/// The argument text shown for a read of `path`: the start line appears
/// only when the call gave one.
pub fn read_display_args(path: &str, start_line_arg: Option<i64>, start_line: usize, line_count: Option<usize>) -> (res: String)
    ensures
        res@ == read_display_text(path@, start_line_arg, start_line, line_count),
{
    let shown_start = match start_line_arg {
        Some(_) => Some(start_line),
        None => None,
    };
    let range = format_read_range(shown_start, line_count);
    let mut out = owned(path);
    push_char(&mut out, ' ');
    push_str(&mut out, range.as_str());
    out
}

// ---------------------------------------------------------------------------
// `read`: truncated content
// ---------------------------------------------------------------------------

/// Content cut to the output limits, and what was cut.
pub struct TruncatedText {
    pub content: String,
    pub was_truncated: bool,
    pub total_bytes: usize,
}

/// Read content ready to return.
#[derive(Debug)]
pub struct TruncatedRead {
    pub content: String,
    pub was_truncated: bool,
    pub total_bytes: usize,
    /// Lines of the returned content.
    pub line_count: usize,
}

/// The number of newline characters in `s`.
pub open spec fn newlines(s: Seq<char>) -> nat
    decreases s.len(),
{
    if s.len() == 0 { 0 } else { newlines(s.drop_last()) + if s.last() == '\n' { 1nat } else { 0nat } }
}

/// The number of lines of `s`, as `str::lines().count()` gives it.
pub open spec fn lines_in(s: Seq<char>) -> nat {
    if s.len() == 0 { 0 } else if s.last() == '\n' { newlines(s) } else { newlines(s) + 1 }
}

proof fn lemma_newlines_bound(s: Seq<char>)
    ensures
        newlines(s) <= s.len(),
        s.len() > 0 && s.last() != '\n' ==> newlines(s) < s.len(),
    decreases s.len(),
{
    if s.len() > 0 {
        lemma_newlines_bound(s.drop_last());
    }
}

fn count_lines(s: &str) -> (res: usize)
    ensures
        res == lines_in(s@),
{
    let cs = chars_of(s);
    let mut n: usize = 0;
    let mut i: usize = 0;
    while i < cs.len()
        invariant
            cs@ == s@,
            i <= cs@.len(),
            n == newlines(cs@.take(i as int)),
            n <= i,
        decreases cs@.len() - i,
    {
        assert(cs@.take(i + 1).drop_last() =~= cs@.take(i as int));
        if cs[i] == '\n' {
            n = n + 1;
        }
        i = i + 1;
    }
    assert(cs@.take(cs@.len() as int) =~= cs@);
    proof {
        lemma_newlines_bound(cs@);
    }
    if cs.len() == 0 {
        0
    } else if cs[cs.len() - 1] == '\n' {
        n
    } else {
        n + 1
    }
}

/// The UTF-8 byte length of a text, as `str::len` gives it.
pub open spec fn byte_len(text: Seq<char>) -> usize {
    vstd::utf8::encode_utf8(text).len() as usize
}

/// The statistics of an output text: its line count and its UTF-8 byte
/// length, no match count.
pub open spec fn text_stats_of(text: Seq<char>) -> ToolUseStats {
    ToolUseStats { matches: None, lines: Some(lines_in(text) as u64), bytes: Some(byte_len(text) as u64) }
}

/// The statistics of an output text.
pub fn text_stats(text: &str) -> (res: ToolUseStats)
    ensures
        res == text_stats_of(text@),
{
    let lines = count_lines(text);
    let bytes = text.len();
    ToolUseStats { matches: None, lines: Some(lines as u64), bytes: Some(bytes as u64) }
}

/// The display of a successful call with arguments `args` whose output is
/// `text`: its line and byte statistics, no status text, no chips.
pub fn output_display(args: String, text: &str) -> (res: ToolDisplay)
    ensures
        res.status == ToolDisplayStatus::Success,
        res.args@ == args@,
        res.status_text@ == Seq::<char>::empty(),
        res.stats == text_stats_of(text@),
        res.info_chips@.len() == 0,
{
    let mut d = ok_display(args);
    d.stats = text_stats(text);
    d
}

/// The notice appended to truncated read content.
pub open spec fn truncation_notice(start_line: usize, line_count: usize, total_lines: usize, total_bytes: usize) -> Seq<char> {
    "\n\n[Showing lines "@ + decimal(start_line as nat) + "-"@ + decimal(range_end(start_line, line_count)) + " of "@
        + decimal(total_lines as nat) + " ("@ + decimal(total_bytes as nat)
        + " bytes total). Use start_line and line_count to continue reading.]"@
}

/// Read content after truncation to the output limits: its line count
/// and, when something was cut, a notice of the lines shown and how to
/// continue.
pub fn truncate_read_content(truncated: TruncatedText, start_line: usize, total_lines: usize) -> (res: TruncatedRead)
    ensures
        res.line_count == lines_in(truncated.content@),
        res.was_truncated == truncated.was_truncated,
        res.total_bytes == truncated.total_bytes,
        res.content@ == truncated.content@ + (if truncated.was_truncated {
            truncation_notice(start_line, res.line_count, total_lines, truncated.total_bytes)
        } else {
            Seq::empty()
        }),
{
    let line_count = count_lines(truncated.content.as_str());
    let mut content = truncated.content;
    if truncated.was_truncated {
        let end_line = start_line.saturating_add(line_count).saturating_sub(1);
        push_str(&mut content, "\n\n[Showing lines ");
        push_decimal(&mut content, start_line as u128);
        push_str(&mut content, "-");
        push_decimal(&mut content, end_line as u128);
        push_str(&mut content, " of ");
        push_decimal(&mut content, total_lines as u128);
        push_str(&mut content, " (");
        push_decimal(&mut content, truncated.total_bytes as u128);
        push_str(&mut content, " bytes total). Use start_line and line_count to continue reading.]");
    }
    TruncatedRead { content, was_truncated: truncated.was_truncated, total_bytes: truncated.total_bytes, line_count }
}

/// The entries of a read result: the shown path and range, the
/// line-numbered content, the slice's numbers and line-ending facts, and,
/// when the content was cut, `truncated` and the byte total. Counts are
/// stored as `i64`, wrapping as `as` does.
pub open spec fn read_entries(display_args: Seq<char>, truncated: TruncatedRead, slice: ReadSlice) -> Seq<(CborView, CborView)> {
    seq![
        (CborView::Text("path"@), CborView::Text(display_args)),
        (CborView::Text("line-numbered content"@), CborView::Text(truncated.content@)),
        (CborView::Text("start_line"@), CborView::Integer((slice.start_line as i64) as int)),
        (CborView::Text("line_count"@), CborView::Integer((truncated.line_count as i64) as int)),
        (CborView::Text("total_lines"@), CborView::Integer((slice.total_lines as i64) as int)),
        (CborView::Text("ends_with_newline"@), CborView::Bool(slice.ends_with_newline)),
        (CborView::Text("line_ending"@), CborView::Text(slice.line_ending@)),
    ] + if truncated.was_truncated {
        seq![
            (CborView::Text("truncated"@), CborView::Bool(true)),
            (CborView::Text("total_bytes"@), CborView::Integer((truncated.total_bytes as i64) as int)),
        ]
    } else {
        Seq::empty()
    }
}

fn entry(key: &str, value: CborValue) -> (res: (CborValue, CborValue))
    ensures
        res.0@ == CborView::Text(key@),
        res.1@ == value@,
{
    (crate::cbor::text(key), value)
}

/// The result value of a read.
pub fn read_result(display_args: String, truncated: &TruncatedRead, slice: &ReadSlice) -> (res: CborValue)
    ensures
        res@ == CborView::Dict(read_entries(display_args@, *truncated, *slice)),
{
    let ghost args = display_args@;
    let mut entries: Vec<(CborValue, CborValue)> = Vec::new();
    entries.push(entry("path", CborValue::Text(display_args)));
    entries.push(entry("line-numbered content", CborValue::Text(truncated.content.clone())));
    entries.push(entry("start_line", CborValue::Integer((slice.start_line as i64) as i128)));
    entries.push(entry("line_count", CborValue::Integer((truncated.line_count as i64) as i128)));
    entries.push(entry("total_lines", CborValue::Integer((slice.total_lines as i64) as i128)));
    entries.push(entry("ends_with_newline", CborValue::Bool(slice.ends_with_newline)));
    entries.push(entry("line_ending", CborValue::Text(slice.line_ending.clone())));
    if truncated.was_truncated {
        entries.push(entry("truncated", CborValue::Bool(true)));
        entries.push(entry("total_bytes", CborValue::Integer((truncated.total_bytes as i64) as i128)));
    }
    proof {
        crate::cbor::lemma_view_entries(entries@);
    }
    let res = CborValue::Dict(entries);
    assert(res@ == CborView::Dict(crate::cbor::view_entries(entries@)));
    assert(crate::cbor::view_entries(entries@) =~= read_entries(args, *truncated, *slice));
    res
}

// ---------------------------------------------------------------------------
// `ls`
// ---------------------------------------------------------------------------

/// Default number of directory entries listed.
pub const DEFAULT_LS_LIMIT: usize = 500;

/// The entry limit: the argument, at least 1, or the default.
pub fn ls_limit(limit: Option<i64>) -> (res: usize)
    ensures
        res == (match limit { Some(v) => (if v < 1 { 1 } else { v }) as usize, None => DEFAULT_LS_LIMIT }),
{
    match limit {
        Some(v) => {
            let m: i64 = if v < 1 { 1 } else { v };
            m as usize
        },
        None => DEFAULT_LS_LIMIT,
    }
}

/// The lowercase form of a string, as `str::to_lowercase` computes it.
pub uninterp spec fn lowercased(s: Seq<char>) -> Seq<char>;

/// Trusted wrapper around `str::to_lowercase`; its result is named
/// [`lowercased`] of the argument.
#[verifier::external_body]
fn to_lowercase(s: &str) -> (res: String)
    ensures
        res@ == lowercased(s@),
{
    s.to_lowercase()
}

/// Entries in non-decreasing order of their lowercase forms.
pub open spec fn sorted_by_lowercase(s: Seq<Seq<char>>) -> bool {
    forall|i: int, j: int| 0 <= i < j < s.len() ==> !seq_lt(lowercased(#[trigger] s[j]), lowercased(#[trigger] s[i]))
}

/// The key directory entries are sorted by: their lowercase form.
pub open spec fn lowercase_key() -> spec_fn(Seq<char>) -> Seq<char> {
    |x: Seq<char>| lowercased(x)
}

/// Directory entries sorted by their lowercase forms; entries with equal
/// lowercase forms keep their order.
pub fn sort_ls_entries(entries: Vec<String>) -> (res: Vec<String>)
    ensures
        sorted_by_lowercase(views(res@)),
        views(res@).to_multiset() == views(entries@).to_multiset(),
        forall|k: Seq<char>| #[trigger] keyed(views(res@), lowercase_key(), k) == keyed(views(entries@), lowercase_key(), k),
{
    let ghost all = views(entries@);
    let total = entries.len();
    let mut rest = entries;
    let mut out: Vec<String> = Vec::new();
    let mut keys: Vec<String> = Vec::new();
    let mut done: usize = 0;
    assert(all.take(0) =~= Seq::<Seq<char>>::empty());
    assert(views(out@) =~= Seq::<Seq<char>>::empty());
    while rest.len() > 0
        invariant
            total == all.len(),
            done <= all.len(),
            views(rest@) == all.skip(done as int),
            keys@.len() == out@.len(),
            forall|k: int| 0 <= k < keys@.len() ==> #[trigger] keys@[k]@ == lowercased(out@[k]@),
            sorted_by_lowercase(views(out@)),
            views(out@).to_multiset() == all.take(done as int).to_multiset(),
            forall|k: Seq<char>| #[trigger] keyed(views(out@), lowercase_key(), k) == keyed(all.take(done as int), lowercase_key(), k),
        decreases rest@.len(),
    {
        let ghost rest_before = views(rest@);
        let ghost rest_vec = rest@;
        assert(rest_before.len() == rest_vec.len());
        assert(done < all.len());
        let item = rest.remove(0);
        assert(rest_before[0] == rest_vec[0]@);
        assert(rest_before[0] == item@);
        assert(all.skip(done as int)[0] == all[done as int]);
        assert(all.take(done + 1) =~= all.take(done as int).push(item@));
        assert(views(rest@) =~= rest_before.drop_first());
        assert(views(rest@) =~= all.skip(done + 1));
        let key = to_lowercase(item.as_str());
        let ghost before = views(out@);
        let ghost before_keys = keys@;
        let mut i: usize = out.len();
        while i > 0 && crate::text::compare_text(keys[i - 1].as_str(), key.as_str()) > 0
            invariant
                views(out@) == before,
                keys@ == before_keys,
                keys@.len() == out@.len(),
                forall|k: int| 0 <= k < keys@.len() ==> #[trigger] keys@[k]@ == lowercased(out@[k]@),
                i <= before.len(),
                forall|j: int| i <= j < before.len() ==> seq_lt(key@, lowercased(#[trigger] before[j])),
            decreases i,
        {
            assert(keys@[i - 1]@ == lowercased(before[i - 1]));
            i = i - 1;
        }
        let ghost pos = i as int;
        let ghost k = key@;
        proof {
            if i > 0 {
                assert(keys@[i - 1]@ == lowercased(before[i - 1]));
            }
        }
        out.insert(i, item);
        keys.insert(i, key);
        assert(views(out@) =~= before.insert(pos, item@));
        assert forall|m: int| 0 <= m < keys@.len() implies #[trigger] keys@[m]@ == lowercased(out@[m]@) by {
            if m < pos {
                assert(keys@[m] == before_keys[m]);
            } else if m > pos {
                assert(keys@[m] == before_keys[m - 1]);
            }
        }
        assert(sorted_by_lowercase(views(out@))) by {
            let t = views(out@);
            assert forall|a: int, b: int| 0 <= a < b < t.len() implies !seq_lt(lowercased(#[trigger] t[b]), lowercased(#[trigger] t[a])) by {
                if b < pos {
                    assert(t[a] == before[a] && t[b] == before[b]);
                } else if b == pos {
                    assert(t[a] == before[a]);
                    assert(!seq_lt(k, lowercased(before[pos - 1])));
                    if a < pos - 1 {
                        assert(!seq_lt(lowercased(before[pos - 1]), lowercased(before[a])));
                        crate::text::lemma_seq_lt_order(k, lowercased(before[a]), lowercased(before[pos - 1]));
                        crate::text::lemma_seq_lt_order(lowercased(before[a]), lowercased(before[pos - 1]), k);
                        crate::text::lemma_seq_lt_order(k, lowercased(before[pos - 1]), lowercased(before[a]));
                    }
                } else if a == pos {
                    assert(t[b] == before[b - 1]);
                    crate::text::lemma_seq_lt_order(k, lowercased(before[b - 1]), k);
                } else if a < pos {
                    assert(t[a] == before[a] && t[b] == before[b - 1]);
                    assert(seq_lt(k, lowercased(before[b - 1])));
                    assert(!seq_lt(k, lowercased(before[pos - 1])));
                    if a < pos - 1 {
                        assert(!seq_lt(lowercased(before[pos - 1]), lowercased(before[a])));
                    }
                    crate::text::lemma_seq_lt_order(lowercased(before[b - 1]), lowercased(before[a]), lowercased(before[pos - 1]));
                    crate::text::lemma_seq_lt_order(lowercased(before[b - 1]), lowercased(before[pos - 1]), k);
                    crate::text::lemma_seq_lt_order(lowercased(before[a]), lowercased(before[pos - 1]), k);
                    crate::text::lemma_seq_lt_order(k, lowercased(before[b - 1]), lowercased(before[a]));
                    crate::text::lemma_seq_lt_order(lowercased(before[b - 1]), lowercased(before[a]), k);
                } else {
                    assert(t[a] == before[a - 1] && t[b] == before[b - 1]);
                }
            }
        }
        proof {
            let t = views(out@);
            t.to_multiset_ensures();
            all.take(done as int).to_multiset_ensures();
            assert(t.remove(pos) =~= before);
            assert(t[pos] == item@);
            assert(t.contains(item@));
        }
        assert(views(out@).to_multiset() =~= before.to_multiset().insert(item@));
        assert forall|kk: Seq<char>| #[trigger] keyed(views(out@), lowercase_key(), kk) == keyed(all.take(done + 1), lowercase_key(), kk) by {
            assert forall|j: int| pos <= j < before.len() implies seq_lt(lowercase_key()(item@), lowercase_key()(#[trigger] before[j])) by {
                assert(seq_lt(k, lowercased(before[j])));
            }
            lemma_keyed_insert(before, pos, item@, lowercase_key(), kk);
            before.lemma_filter_push(item@, key_is(lowercase_key(), kk));
            all.take(done as int).lemma_filter_push(item@, key_is(lowercase_key(), kk));
            assert(keyed(before, lowercase_key(), kk) == keyed(all.take(done as int), lowercase_key(), kk));
        }
        done = done + 1;
    }
    assert(all.take(done as int) =~= all);
    out
}

/// The listing of a directory's sorted entries: how many there are, the
/// first `limit` of them one per line, and whether the limit cut some.
pub struct LsListing {
    pub total_entries: usize,
    pub text: String,
    pub limit_reached: bool,
}

/// Lists sorted entries up to `limit`.
pub fn ls_listing(entries: &Vec<String>, limit: usize) -> (res: LsListing)
    ensures
        res.total_entries == entries@.len(),
        res.limit_reached == (entries@.len() > limit),
        res.text@ == join(views(entries@).take(if entries@.len() > limit { limit as int } else { entries@.len() as int }), seq!['\n']),
{
    let shown = if entries.len() > limit { limit } else { entries.len() };
    let mut displayed: Vec<String> = Vec::new();
    let mut i: usize = 0;
    while i < shown
        invariant
            shown <= entries@.len(),
            i <= shown,
            displayed@.len() == i,
            views(displayed@) == views(entries@).take(i as int),
        decreases shown - i,
    {
        let ghost before = views(displayed@);
        let c = entries[i].clone();
        assert(c@ == entries@[i as int]@);
        displayed.push(c);
        assert(views(displayed@) =~= before.push(c@));
        assert(views(entries@).take(i + 1) =~= views(entries@).take(i as int).push(entries@[i as int]@));
        assert(views(displayed@) =~= views(entries@).take(i + 1));
        i = i + 1;
    }
    proof {
        reveal_strlit("\n");
    }
    assert("\n"@ =~= seq!['\n']);
    let text = crate::text::join_strings(&displayed, "\n");
    LsListing { total_entries: entries.len(), text, limit_reached: entries.len() > limit }
}

/// The notices appended to an `ls` listing.
pub open spec fn ls_notices(limit: usize, limit_reached: bool, was_truncated: bool) -> Seq<Seq<char>> {
    (if limit_reached {
        seq![decimal(limit as nat) + " entries limit reached. Use limit="@ + decimal((limit * 2) as nat) + " for more."@]
    } else {
        Seq::empty()
    }) + (if was_truncated { seq!["50KB/2000 line output limit reached."@] } else { Seq::empty() })
}

/// The `ls` output text: the (possibly truncated) listing, then the
/// notices in brackets after a blank line, when there are any.
pub fn ls_output_text(listing: String, limit: usize, limit_reached: bool, was_truncated: bool) -> (res: String)
    requires
        limit * 2 <= usize::MAX,
    ensures
        res@ == listing@ + (if ls_notices(limit, limit_reached, was_truncated).len() > 0 {
            "\n\n["@ + join(ls_notices(limit, limit_reached, was_truncated), seq![' ']) + "]"@
        } else {
            Seq::empty()
        }),
{
    let mut notices: Vec<String> = Vec::new();
    if limit_reached {
        let mut n = String::new();
        push_decimal(&mut n, limit as u128);
        push_str(&mut n, " entries limit reached. Use limit=");
        push_decimal(&mut n, (limit * 2) as u128);
        push_str(&mut n, " for more.");
        notices.push(n);
    }
    if was_truncated {
        notices.push(owned("50KB/2000 line output limit reached."));
    }
    assert(views(notices@) =~= ls_notices(limit, limit_reached, was_truncated));
    let mut out = listing;
    if notices.len() > 0 {
        push_str(&mut out, "\n\n[");
        proof {
            reveal_strlit(" ");
        }
        assert(" "@ =~= seq![' ']);
        push_str(&mut out, crate::text::join_strings(&notices, " ").as_str());
        push_str(&mut out, "]");
    }
    out
}

/// The `ls` result value: the number of entries and the output text.
pub fn ls_result(total_entries: usize, output: String) -> (res: CborValue)
    requires
        total_entries <= i128::MAX,
    ensures
        res@ == crate::cbor::CborView::Dict(seq![
            (crate::cbor::CborView::Text("entries"@), crate::cbor::CborView::Integer(total_entries as int)),
            (crate::cbor::CborView::Text("output"@), crate::cbor::CborView::Text(output@)),
        ]),
{
    let mut entries: Vec<(CborValue, CborValue)> = Vec::new();
    entries.push((crate::cbor::text("entries"), CborValue::Integer(total_entries as i128)));
    let ghost out_view = output@;
    entries.push((crate::cbor::text("output"), CborValue::Text(output)));
    proof {
        crate::cbor::lemma_view_entries(entries@);
    }
    let res = CborValue::Dict(entries);
    assert(res@ == crate::cbor::CborView::Dict(crate::cbor::view_entries(entries@)));
    assert(crate::cbor::view_entries(entries@) =~= seq![
        (crate::cbor::CborView::Text("entries"@), crate::cbor::CborView::Integer(total_entries as int)),
        (crate::cbor::CborView::Text("output"@), crate::cbor::CborView::Text(out_view)),
    ]);
    res
}

/// The display of an `ls` of an empty directory: zero lines and zero
/// bytes, no chips.
pub fn ls_empty_display(args: String) -> (res: ToolDisplay)
    ensures
        res.status == ToolDisplayStatus::Success,
        res.args@ == args@,
        res.status_text@ == Seq::<char>::empty(),
        res.stats == (ToolUseStats { matches: None, lines: Some(0), bytes: Some(0) }),
        res.info_chips@.len() == 0,
{
    let mut d = ok_display(args);
    d.stats = ToolUseStats { matches: None, lines: Some(0), bytes: Some(0) };
    d
}

/// The `ls` result of an empty directory.
pub fn ls_empty_result() -> (res: CborValue)
    ensures
        res@ == crate::cbor::CborView::Dict(seq![
            (crate::cbor::CborView::Text("entries"@), crate::cbor::CborView::Integer(0)),
            (crate::cbor::CborView::Text("output"@), crate::cbor::CborView::Text("(empty directory)"@)),
        ]),
{
    ls_result(0, owned("(empty directory)"))
}

} // verus!

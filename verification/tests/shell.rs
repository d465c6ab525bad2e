use tau::cbor::CborValue;
use tau::shell::{
    format_read_range, line_ending_label, ls_empty_display, ls_empty_result, ls_limit, ls_listing, ls_output_text, ls_result,
    parse_read_line_count, parse_read_start_line, read_display_args, read_result, route_tool, sort_ls_entries,
    truncate_read_content, unknown_tool_outcome, wrap_outcome, output_display, text_stats, ShellTool, SliceReader, ToolFailure, ToolOutput,
    TruncatedText, DEFAULT_LS_LIMIT,
};
use tau::tool::{display, PromptOriginator, ToolDisplayStatus, ToolOutcome, ToolResultKind, ToolStarted, ToolType};

fn text_entry<'a>(value: &'a CborValue, key: &str) -> Option<&'a CborValue> {
    match value {
        CborValue::Dict(entries) => entries.iter().find_map(|(k, v)| match k {
            CborValue::Text(k) if k == key => Some(v),
            _ => None,
        }),
        _ => None,
    }
}

fn read_lines(text: &str, start_line: usize, line_count: Option<usize>) -> tau::shell::ReadSlice {
    let mut reader = SliceReader::new(start_line, line_count);
    for line in text.split_inclusive('\n') {
        reader.feed(line);
    }
    reader.finish()
}

#[test]
fn error_chip_text_keeps_full_first_line_for_renderer_abbreviation() {
    let message = "failed to access /home/dpc/agent/.agents/skills: No such file or directory (os error 2)\nignored detail";
    let failure = ToolFailure::new(message);

    assert_eq!(
        failure.display.status_text,
        "failed to access /home/dpc/agent/.agents/skills: No such file or directory (os error 2)"
    );
    assert!(!failure.display.status_text.contains("err:"));
    assert!(!failure.display.status_text.contains('…'));
}

#[test]
fn failure_keeps_message_and_marks_error() {
    let failure = ToolFailure::new("one line");
    assert_eq!(failure.message, "one line");
    assert_eq!(failure.display.status_text, "one line");
    assert_eq!(failure.display.status, ToolDisplayStatus::Error);
    assert!(failure.details.is_none());
    let trailing = ToolFailure::new("first\n");
    assert_eq!(trailing.display.status_text, "first");
}

#[test]
fn tool_names_route_to_their_handlers() {
    assert_eq!(route_tool("read"), ShellTool::Read);
    assert_eq!(route_tool("edit"), ShellTool::Edit);
    assert_eq!(route_tool("apply_patch"), ShellTool::ApplyPatch);
    assert_eq!(route_tool("grep"), ShellTool::Grep);
    assert_eq!(route_tool("find"), ShellTool::Find);
    assert_eq!(route_tool("ls"), ShellTool::Ls);
    assert_eq!(route_tool("shell"), ShellTool::Shell);
    assert_eq!(route_tool("gpt_shell"), ShellTool::Shell);
    assert_eq!(route_tool("Read"), ShellTool::Unknown);
    assert_eq!(route_tool(""), ShellTool::Unknown);
}

#[test]
fn read_arguments_default_and_reject_values_below_one() {
    assert_eq!(parse_read_start_line(None).ok(), Some(1));
    assert_eq!(parse_read_start_line(Some(7)).ok(), Some(7));
    let err = parse_read_start_line(Some(0)).err().expect("zero start rejected");
    assert_eq!(err.message, "start_line must be >= 1");
    assert_eq!(parse_read_line_count(None).ok(), Some(None));
    assert_eq!(parse_read_line_count(Some(3)).ok(), Some(Some(3)));
    let err = parse_read_line_count(Some(-2)).err().expect("negative count rejected");
    assert_eq!(err.message, "line_count must be >= 1");
}

#[test]
fn read_range_text_leaves_open_ends_out() {
    assert_eq!(format_read_range(None, None), "..");
    assert_eq!(format_read_range(Some(5), None), "5..");
    assert_eq!(format_read_range(None, Some(10)), "..10");
    assert_eq!(format_read_range(Some(5), Some(10)), "5..14");
    assert_eq!(format_read_range(Some(usize::MAX), Some(2)), format!("{}..{}", usize::MAX, usize::MAX - 1));
}

#[test]
fn line_ending_labels() {
    assert_eq!(line_ending_label(false, false), "none");
    assert_eq!(line_ending_label(true, false), "lf");
    assert_eq!(line_ending_label(false, true), "crlf");
    assert_eq!(line_ending_label(true, true), "mixed");
}

#[test]
fn slice_reader_numbers_the_window_and_counts_every_line() {
    let slice = read_lines("alpha\nbeta\r\ngamma\ndelta", 2, Some(2));
    assert_eq!(slice.content, "2 beta\n3 gamma");
    assert_eq!(slice.start_line, 2);
    assert_eq!(slice.line_count, 2);
    assert_eq!(slice.total_lines, 4);
    assert!(!slice.ends_with_newline);
    assert_eq!(slice.line_ending, "mixed");
}

#[test]
fn slice_reader_without_count_reads_to_the_end() {
    let slice = read_lines("a\r\nb\r\n", 1, None);
    assert_eq!(slice.content, "1 a\n2 b");
    assert_eq!(slice.line_count, 2);
    assert_eq!(slice.total_lines, 2);
    assert!(slice.ends_with_newline);
    assert_eq!(slice.line_ending, "crlf");

    let empty = read_lines("", 1, None);
    assert_eq!(empty.content, "");
    assert_eq!(empty.total_lines, 0);
    assert_eq!(empty.line_ending, "none");

    let past_end = read_lines("only\n", 3, Some(1));
    assert_eq!(past_end.content, "");
    assert_eq!(past_end.line_count, 0);
    assert_eq!(past_end.total_lines, 1);
    assert_eq!(past_end.line_ending, "lf");
}

#[test]
fn truncated_read_reports_shown_lines() {
    let cut = truncate_read_content(
        TruncatedText { content: "1 a\n2 b".to_owned(), was_truncated: true, total_bytes: 900 },
        1,
        40,
    );
    assert_eq!(cut.line_count, 2);
    assert!(cut.was_truncated);
    assert_eq!(
        cut.content,
        "1 a\n2 b\n\n[Showing lines 1-2 of 40 (900 bytes total). Use start_line and line_count to continue reading.]"
    );

    let whole = truncate_read_content(
        TruncatedText { content: "1 a\n".to_owned(), was_truncated: false, total_bytes: 4 },
        1,
        1,
    );
    assert_eq!(whole.content, "1 a\n");
    assert_eq!(whole.line_count, 1);
}

#[test]
fn ls_limit_defaults_and_clamps() {
    assert_eq!(ls_limit(None), DEFAULT_LS_LIMIT);
    assert_eq!(ls_limit(Some(0)), 1);
    assert_eq!(ls_limit(Some(-5)), 1);
    assert_eq!(ls_limit(Some(30)), 30);
}

#[test]
fn ls_entries_sort_case_insensitively_and_stably() {
    let sorted = sort_ls_entries(vec![
        "beta".to_owned(),
        "Alpha/".to_owned(),
        "alpha/".to_owned(),
        "Gamma".to_owned(),
    ]);
    assert_eq!(sorted, vec!["Alpha/", "alpha/", "beta", "Gamma"]);
}

#[test]
fn ls_listing_reports_limit() {
    let entries: Vec<String> = vec!["a".to_owned(), "b".to_owned(), "c".to_owned()];
    let listing = ls_listing(&entries, 2);
    assert_eq!(listing.total_entries, 3);
    assert!(listing.limit_reached);
    assert_eq!(listing.text, "a\nb");

    let all = ls_listing(&entries, 500);
    assert!(!all.limit_reached);
    assert_eq!(all.text, "a\nb\nc");

    let text = ls_output_text(listing.text, 2, true, false);
    assert_eq!(text, "a\nb\n\n[2 entries limit reached. Use limit=4 for more.]");
    let both = ls_output_text("x".to_owned(), 2, true, true);
    assert_eq!(
        both,
        "x\n\n[2 entries limit reached. Use limit=4 for more. 50KB/2000 line output limit reached.]"
    );
    assert_eq!(ls_output_text("x".to_owned(), 2, false, false), "x");
}

#[test]
fn ls_display_uses_line_and_byte_stats_instead_of_entry_chip() {
    let sorted = sort_ls_entries(vec!["beta".to_owned(), "alpha".to_owned()]);
    let listing = ls_listing(&sorted, ls_limit(None));
    let output = ls_output_text(listing.text, ls_limit(None), listing.limit_reached, false);
    assert_eq!(output, "alpha\nbeta");
    let display = output_display("/tmp/dir".to_owned(), &output);
    assert!(display.info_chips.is_empty());
    assert_eq!(display.stats.lines, Some(2));
    assert_eq!(display.stats.bytes, Some("alpha\nbeta".len() as u64));
    assert_eq!(display.args, "/tmp/dir");
    let result = ls_result(listing.total_entries, output);
    assert!(matches!(text_entry(&result, "entries"), Some(CborValue::Integer(2))));
    assert!(matches!(text_entry(&result, "output"), Some(CborValue::Text(t)) if t == "alpha\nbeta"));
}

#[test]
fn empty_ls_display_uses_zero_line_and_byte_stats() {
    let display = ls_empty_display("/tmp/empty".to_owned());
    assert!(display.info_chips.is_empty());
    assert_eq!(display.stats.lines, Some(0));
    assert_eq!(display.stats.bytes, Some(0));
    let result = ls_empty_result();
    assert!(matches!(text_entry(&result, "entries"), Some(CborValue::Integer(0))));
    assert!(matches!(
        text_entry(&result, "output"),
        Some(CborValue::Text(value)) if value == "(empty directory)"
    ));
}

#[test]
fn text_stats_count_lines_and_utf8_bytes() {
    let stats = text_stats("één\ntwee\n");
    assert_eq!(stats.lines, Some(2));
    assert_eq!(stats.bytes, Some("één\ntwee\n".len() as u64));
    assert_eq!(stats.matches, None);
    assert_eq!(text_stats("").lines, Some(0));
}

fn started(name: &str) -> ToolStarted {
    ToolStarted { call_id: "c7".to_owned(), tool_name: name.to_owned(), arguments: CborValue::Null, originator: PromptOriginator::User }
}

#[test]
fn handler_answers_become_result_or_error_events() {
    let ok = wrap_outcome(
        started("ls"),
        Ok(ToolOutput { result: CborValue::Bool(true), display: display(ToolDisplayStatus::Success, ".") }),
    );
    match ok {
        ToolOutcome::Result { call_id, tool_name, result: CborValue::Bool(true), kind: ToolResultKind::Final, display: Some(d), .. } => {
            assert_eq!((call_id.as_str(), tool_name.as_str(), d.status_text.as_str()), ("c7", "ls", "."));
        }
        other => panic!("unexpected {other:?}"),
    }
    let err = wrap_outcome(started("read"), Err(ToolFailure::new("boom\nmore")));
    match err {
        ToolOutcome::Error { message, details: None, display: Some(d), .. } => {
            assert_eq!(message, "boom\nmore");
            assert_eq!(d.status_text, "boom");
            assert_eq!(d.status, ToolDisplayStatus::Error);
        }
        other => panic!("unexpected {other:?}"),
    }
    match unknown_tool_outcome(started("nope")) {
        ToolOutcome::Error { call_id, tool_name, tool_type, message, details: None, display: None, originator } => {
            assert_eq!((call_id.as_str(), tool_name.as_str(), message.as_str()), ("c7", "nope", "unknown tool"));
            assert_eq!((tool_type, originator), (ToolType::Function, PromptOriginator::User));
        }
        other => panic!("unexpected {other:?}"),
    }
}

#[test]
fn read_result_lists_slice_facts_and_truncation() {
    let args = read_display_args("src/main.rs", Some(3), 3, Some(2));
    assert_eq!(args, "src/main.rs 3..4");
    assert_eq!(read_display_args("a.txt", None, 1, None), "a.txt ..");
    let slice = read_lines("x\ny\nz\nw\n", 3, Some(2));
    let cut = truncate_read_content(
        TruncatedText { content: slice.content.clone(), was_truncated: false, total_bytes: 8 },
        3,
        slice.total_lines,
    );
    let result = read_result(args, &cut, &slice);
    assert!(matches!(text_entry(&result, "path"), Some(CborValue::Text(t)) if t == "src/main.rs 3..4"));
    assert!(matches!(text_entry(&result, "line-numbered content"), Some(CborValue::Text(t)) if t == "3 z\n4 w"));
    assert!(matches!(text_entry(&result, "start_line"), Some(CborValue::Integer(3))));
    assert!(matches!(text_entry(&result, "line_count"), Some(CborValue::Integer(2))));
    assert!(matches!(text_entry(&result, "total_lines"), Some(CborValue::Integer(4))));
    assert!(matches!(text_entry(&result, "ends_with_newline"), Some(CborValue::Bool(true))));
    assert!(matches!(text_entry(&result, "line_ending"), Some(CborValue::Text(t)) if t == "lf"));
    assert!(text_entry(&result, "truncated").is_none());

    let big = truncate_read_content(
        TruncatedText { content: "1 a".to_owned(), was_truncated: true, total_bytes: 70000 },
        1,
        9,
    );
    let result = read_result("f ..".to_owned(), &big, &slice);
    assert!(matches!(text_entry(&result, "truncated"), Some(CborValue::Bool(true))));
    assert!(matches!(text_entry(&result, "total_bytes"), Some(CborValue::Integer(70000))));
}

#[test]
fn slice_window_counts_from_line_one_and_stops_at_the_count() {
    let from_zero = read_lines("a\nb\nc\n", 0, Some(2));
    assert_eq!(from_zero.content, "1 a\n2 b");
    assert_eq!(from_zero.total_lines, 3);
    let tail = read_lines("a\nb\nc\n", 3, Some(5));
    assert_eq!(tail.content, "3 c");
    assert_eq!(tail.line_count, 1);
}

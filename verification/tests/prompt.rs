use tau::cbor::CborValue;
use tau::context::{ContentPart, ContextItem, ContextRole, MessageItem};
use tau::prompt::{
    assemble_conversation_from, cbor_map_bool, cbor_to_text, civil_from_days, date_from_unix_secs,
    nickel_string_literal, render_agents_context_message, render_tool_prompt_hooks_section, AgentsFile, SessionEntry,
};
use tau::proto::{PromptContent, PromptHook, PromptPriority};
use tau::system_prompt::{
    nickel_skills_literal, rendered_prompt, system_prompt_expression, NickelOutcome, PromptSkill, SettingsError, SystemPromptRenderer,
};

fn text(s: &str) -> CborValue {
    CborValue::Text(s.to_owned())
}

#[test]
fn cbor_to_text_puts_line_numbered_content_on_next_line() {
    let text = cbor_to_text(&CborValue::Dict(vec![(text("line-numbered content"), text("1 only"))]));
    assert_eq!(text, "line-numbered content:\n1 only");
}

#[test]
fn cbor_to_text_renders_scalars_and_nesting() {
    assert_eq!(cbor_to_text(&CborValue::Null), "");
    assert_eq!(cbor_to_text(&CborValue::Bool(true)), "true");
    assert_eq!(cbor_to_text(&CborValue::Integer(-42)), "-42");
    assert_eq!(cbor_to_text(&CborValue::Bytes(vec![1, 2, 3])), "<3 bytes>");
    assert_eq!(cbor_to_text(&CborValue::Array(vec![text("a"), CborValue::Integer(7)])), "a\n7");
    assert_eq!(
        cbor_to_text(&CborValue::Dict(vec![(text("exit_code"), CborValue::Integer(0)), (text("stdout"), text("x\ny"))])),
        "exit_code: 0\nstdout:\nx\ny"
    );
    assert_eq!(cbor_to_text(&CborValue::Tag(1, Box::new(text("t")))), "t");
}

#[test]
fn cbor_map_bool_takes_first_boolean_entry() {
    let map = CborValue::Dict(vec![
        (text("flag"), text("not a bool")),
        (text("flag"), CborValue::Bool(true)),
        (text("flag"), CborValue::Bool(false)),
    ]);
    assert_eq!(cbor_map_bool(&map, "flag"), Some(true));
    assert_eq!(cbor_map_bool(&map, "other"), None);
    assert_eq!(cbor_map_bool(&text("flag"), "flag"), None);
}

#[test]
fn nickel_literal_escapes_specials() {
    assert_eq!(nickel_string_literal("a\"b\\c\nd\te\r\u{1}"), "\"a\\\"b\\\\c\\nd\\te\\r\\u0001\"");
    assert_eq!(nickel_string_literal("\u{9f}x"), "\"\\u009fx\"");
    assert_eq!(nickel_string_literal(""), "\"\"");
}

#[test]
fn prompt_hook_section_joins_non_empty_contents_in_priority_order() {
    let mut hook = PromptHook::new();
    assert!(hook.insert((PromptPriority::new(20), PromptContent::new("second".to_owned()))));
    assert!(hook.insert((PromptPriority::new(10), PromptContent::new("first".to_owned()))));
    assert!(hook.insert((PromptPriority::new(15), PromptContent::new(String::new()))));
    assert!(!hook.insert((PromptPriority::new(10), PromptContent::new("first".to_owned()))));
    assert_eq!(render_tool_prompt_hooks_section(&hook), "first\n\nsecond");
    assert_eq!(render_tool_prompt_hooks_section(&PromptHook::new()), "");
}

#[test]
fn agents_context_message_wraps_each_file() {
    let files = vec![
        AgentsFile { file_path: "/p/AGENTS.md".to_owned(), content: "one".to_owned() },
        AgentsFile { file_path: "/p/sub/AGENTS.md".to_owned(), content: "two\n".to_owned() },
    ];
    assert_eq!(
        render_agents_context_message(&files),
        "# AGENTS.md instructions\n\nThe following instructions were loaded from AGENTS.md files.\nMore specific files usually override broader ones.\n\n<AGENTS_FILE path=\"/p/AGENTS.md\">\none\n</AGENTS_FILE>\n\n<AGENTS_FILE path=\"/p/sub/AGENTS.md\">\ntwo\n</AGENTS_FILE>\n\n"
    );
}

#[test]
fn dates_from_epoch_days() {
    assert_eq!(civil_from_days(0), (1970, 1, 1));
    assert_eq!(civil_from_days(59), (1970, 3, 1));
    assert_eq!(civil_from_days(11016), (2000, 2, 29));
    assert_eq!(date_from_unix_secs(0), "1970-01-01");
    assert_eq!(date_from_unix_secs(1_700_000_000), "2023-11-14");
    assert_eq!(date_from_unix_secs(951_782_400), "2000-02-29");
}

fn message(role: ContextRole, text: &str) -> ContextItem {
    ContextItem::Message(MessageItem { role, content: vec![ContentPart::Text { text: text.to_owned() }], phase: None })
}

fn message_text(item: &ContextItem) -> &str {
    match item {
        ContextItem::Message(m) => match &m.content[0] {
            ContentPart::Text { text } => text.as_str(),
        },
        _ => panic!("expected message"),
    }
}

#[test]
fn assemble_conversation_restarts_from_compacted_summary() {
    let branch = vec![
        SessionEntry::UserInput { items: vec![message(ContextRole::User, "old question")] },
        SessionEntry::AssistantResponse { output_items: vec![message(ContextRole::Assistant, "old answer")] },
        SessionEntry::Compaction { replacement_window: vec![message(ContextRole::User, "summary")] },
        SessionEntry::UserInput { items: vec![message(ContextRole::User, "new question")] },
    ];
    let items = assemble_conversation_from(branch);
    let texts: Vec<&str> = items.iter().map(message_text).collect();
    assert_eq!(texts, vec!["summary", "new question"]);
}

#[test]
fn skills_literal_lists_prompt_skills_by_name() {
    let skills = vec![
        PromptSkill { name: "zeta".to_owned(), description: "last".to_owned(), add_to_prompt: true },
        PromptSkill { name: "hidden".to_owned(), description: "x".to_owned(), add_to_prompt: false },
        PromptSkill { name: "alpha".to_owned(), description: "Use <xml> & \"quotes\"".to_owned(), add_to_prompt: true },
    ];
    assert_eq!(
        nickel_skills_literal(skills),
        "[{ name = \"alpha\", description = \"Use <xml> & \\\"quotes\\\"\" }, { name = \"zeta\", description = \"last\" }]"
    );
    assert_eq!(nickel_skills_literal(Vec::new()), "[]");
}

#[test]
fn system_prompt_expression_embeds_runtime_context() {
    let expr = system_prompt_expression("{ roles = {} }", "smart", "/tmp/work", "[]", "TOOL HOOK");
    assert!(expr.starts_with("let config = ({ roles = {} }) in\nlet ctx = { roleName | force = \"smart\", cwd | force = \"/tmp/work\", skills | force = [], toolPromptHooksText | force = \"TOOL HOOK\" } in\n"));
    assert!(expr.ends_with("(rolePrompt & ctx).text"));
}

#[test]
fn system_prompt_renderer_expression_evaluates_to_role_template() {
    let source = "{ roles = { smart = { systemPrompt = { roleName | String, cwd | String, skills | Array Dyn, toolPromptHooksText | String, text = \"Current working directory: %{cwd}\" } } } }";
    let renderer = SystemPromptRenderer::new(source.to_owned());
    let expression = renderer.expression(Vec::new(), "/tmp/work", "smart", &PromptHook::new());
    let value = nickel_lang::Context::new().eval_deep_for_export(&expression).ok().expect("expression evaluates");
    let text: String = value.to_serde().ok().expect("string value");
    match rendered_prompt(NickelOutcome::Text(text)) {
        Ok(text) => assert_eq!(text, "Current working directory: /tmp/work"),
        Err(err) => panic!("render failed: {err:?}"),
    }
}

#[test]
fn rendered_prompt_maps_each_outcome() {
    assert!(matches!(rendered_prompt(NickelOutcome::Text("hi".to_owned())), Ok(t) if t == "hi"));
    assert!(matches!(rendered_prompt(NickelOutcome::NotText("not a string".to_owned())), Err(SettingsError::Deserialize(m)) if m == "not a string"));
    assert!(matches!(rendered_prompt(NickelOutcome::Failed("boom".to_owned())), Err(SettingsError::Nickel(m)) if m == "boom"));
}

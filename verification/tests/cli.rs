use tau::cli::{
    agent_arg_completions, agent_is_active_in_sets, agent_mention_completions, append_prompt_trailer,
    logical_to_action, mark_agent_resumed, mark_agent_suspended, next_role_in_groups, provider_command,
    session_arg_completions, strip_prompt_trailer, EditorContext, HarnessRoleGroup, LogicalKey, PickerError,
    PickerItem, PickerKey, ProviderCommand, HELP_TEXT, PROMPT_TRAILER_MARKER,
};

fn args(values: &[&str]) -> Vec<String> {
    values.iter().map(|s| s.to_string()).collect()
}

#[test]
fn no_context_returns_buffer_unchanged() {
    let out = append_prompt_trailer("hello", &EditorContext::default());
    assert_eq!(out, "hello");
}

#[test]
fn roundtrip_strips_trailer_with_current_response() {
    let edited = append_prompt_trailer(
        "draft body",
        &EditorContext { current_response: Some("agent draft".to_owned()), last_response: None, previous_prompt: None },
    );
    assert!(edited.contains(PROMPT_TRAILER_MARKER));
    assert!(edited.contains("agent draft"));
    assert_eq!(strip_prompt_trailer(&edited), "draft body");
}

#[test]
fn roundtrip_strips_trailer_with_all_sections() {
    let edited = append_prompt_trailer(
        "user body",
        &EditorContext {
            current_response: Some("in progress".to_owned()),
            last_response: Some("last".to_owned()),
            previous_prompt: Some("prev".to_owned()),
        },
    );
    assert!(edited.contains("Current response in progress"));
    assert!(edited.contains("Last response"));
    assert!(edited.contains("Previous prompt"));
    assert_eq!(strip_prompt_trailer(&edited), "user body");
}

#[test]
fn empty_section_strings_are_skipped() {
    let edited = append_prompt_trailer(
        "body",
        &EditorContext {
            current_response: Some(String::new()),
            last_response: Some("kept".to_owned()),
            previous_prompt: Some(String::new()),
        },
    );
    assert!(!edited.contains("Current response in progress"));
    assert!(edited.contains("Last response"));
    assert!(!edited.contains("Previous prompt"));
}

#[test]
fn strip_without_marker_is_identity() {
    assert_eq!(strip_prompt_trailer("just text"), "just text");
}

#[test]
fn marker_inside_user_text_is_kept() {
    let mut user_text = String::from("body with marker: ");
    user_text.push_str(PROMPT_TRAILER_MARKER);
    user_text.push_str(" and more");
    let stripped = strip_prompt_trailer(&user_text);
    assert_eq!(stripped, user_text);
}

#[test]
fn deleting_marker_line_keeps_entire_file_as_prompt() {
    let edited = append_prompt_trailer(
        "my reply",
        &EditorContext {
            current_response: Some(format!("agent mentioned {PROMPT_TRAILER_MARKER}")),
            last_response: Some("last".to_owned()),
            previous_prompt: None,
        },
    );
    let without_marker_line =
        edited.lines().filter(|line| *line != PROMPT_TRAILER_MARKER).collect::<Vec<_>>().join("\n");
    assert_eq!(strip_prompt_trailer(&without_marker_line), without_marker_line);
}

#[test]
fn trailer_roundtrip_keeps_trailing_newline() {
    let edited = append_prompt_trailer(
        "body\n",
        &EditorContext { current_response: None, last_response: Some("x".to_owned()), previous_prompt: None },
    );
    assert_eq!(strip_prompt_trailer(&edited), "body\n");
}

#[test]
fn agent_completer_offers_subcommands_first() {
    let values = agent_arg_completions(&args(&[""]), &Vec::new(), &Vec::new(), &Vec::new());
    assert_eq!(values, vec!["new", "switch", "suspend", "resume"]);
}

#[test]
fn session_completer_offers_new_subcommand() {
    let values = session_arg_completions(&args(&[""]));
    assert_eq!(values, vec!["new"]);
}

#[test]
fn agent_new_takes_no_agent_id_completion() {
    let known = args(&["worker"]);
    let live = args(&["worker"]);
    assert!(agent_arg_completions(&args(&["new", ""]), &known, &live, &Vec::new()).is_empty());
}

#[test]
fn agent_suspend_resume_updates_prompt_routing_state_synchronously() {
    let live = args(&["worker"]);
    let mut suspended: Vec<String> = Vec::new();

    mark_agent_suspended(&mut suspended, "worker");
    assert!(!agent_is_active_in_sets(&live, &suspended, "worker"));

    mark_agent_resumed(&mut suspended, "worker");
    assert!(agent_is_active_in_sets(&live, &suspended, "worker"));
}

#[test]
fn agent_mention_completer_offers_only_active_agents() {
    let known = args(&["helper", "worker"]);
    let live = args(&["helper", "worker"]);
    let suspended = args(&["helper"]);
    let values = agent_mention_completions("", &known, &live, &suspended);
    assert_eq!(values, vec!["worker"]);
}

#[test]
fn agent_completer_filters_active_and_suspended_agents() {
    let known = args(&["helper", "worker"]);
    let live = args(&["helper", "worker"]);
    let suspended = args(&["helper"]);
    let switch_values = agent_arg_completions(&args(&["switch", ""]), &known, &live, &suspended);
    let suspend_values = agent_arg_completions(&args(&["suspend", ""]), &known, &live, &suspended);
    let resume_values = agent_arg_completions(&args(&["resume", ""]), &known, &live, &suspended);
    assert_eq!(switch_values, vec!["none", "worker"]);
    assert_eq!(suspend_values, vec!["worker"]);
    assert_eq!(resume_values, vec!["helper"]);
}

#[test]
fn completions_follow_typed_prefix() {
    let values = agent_arg_completions(&args(&["s"]), &Vec::new(), &Vec::new(), &Vec::new());
    assert_eq!(values, vec!["switch", "suspend"]);
}

fn groups() -> Vec<HarnessRoleGroup> {
    vec![
        HarnessRoleGroup {
            name: "engineer".to_owned(),
            roles: args(&["junior-engineer", "senior-engineer", "staff-engineer"]),
        },
        HarnessRoleGroup { name: "assistant".to_owned(), roles: args(&["assistant"]) },
        HarnessRoleGroup { name: "manager".to_owned(), roles: args(&["manager"]) },
    ]
}

#[test]
fn group_cycle_returns_to_last_runtime_role_for_group() {
    let groups = groups();
    let memory = vec![("engineer".to_owned(), "staff-engineer".to_owned())];
    assert_eq!(next_role_in_groups(Some("manager"), &groups, false, &memory).as_deref(), Some("staff-engineer"));
}

#[test]
fn group_cycle_ignores_stale_runtime_group_memory() {
    let groups = groups();
    let memory = vec![("engineer".to_owned(), "missing-engineer".to_owned())];
    assert_eq!(next_role_in_groups(Some("manager"), &groups, false, &memory).as_deref(), Some("junior-engineer"));
}

#[test]
fn group_cycle_reverse_and_unknown_role() {
    let groups = groups();
    assert_eq!(next_role_in_groups(Some("assistant"), &groups, true, &Vec::new()).as_deref(), Some("junior-engineer"));
    assert_eq!(next_role_in_groups(Some("junior-engineer"), &groups, true, &Vec::new()).as_deref(), Some("manager"));
    assert_eq!(next_role_in_groups(None, &groups, false, &Vec::new()).as_deref(), Some("junior-engineer"));
    assert_eq!(next_role_in_groups(Some("x"), &Vec::new(), false, &Vec::new()), None);
}

#[test]
fn logical_mapping_is_single_source_of_truth() {
    assert_eq!(logical_to_action(LogicalKey::Up), PickerKey::Up);
    assert_eq!(logical_to_action(LogicalKey::Down), PickerKey::Down);
    assert_eq!(logical_to_action(LogicalKey::Tab), PickerKey::Down);
    assert_eq!(logical_to_action(LogicalKey::BackTab), PickerKey::Up);
    assert_eq!(logical_to_action(LogicalKey::Enter), PickerKey::Enter);
    assert_eq!(logical_to_action(LogicalKey::Esc), PickerKey::Cancelled);
    assert_eq!(logical_to_action(LogicalKey::CtrlC), PickerKey::Cancelled);
    assert_eq!(logical_to_action(LogicalKey::CtrlD), PickerKey::Cancelled);
    assert_eq!(logical_to_action(LogicalKey::Char('j')), PickerKey::Down);
    assert_eq!(logical_to_action(LogicalKey::Char('k')), PickerKey::Up);
    assert_eq!(logical_to_action(LogicalKey::Char('q')), PickerKey::Cancelled);
    assert_eq!(logical_to_action(LogicalKey::Char(' ')), PickerKey::Ignored);
}

#[test]
fn picker_rows_and_errors() {
    let row = PickerItem::enabled("one".to_owned());
    assert!(row.enabled);
    assert!(!PickerItem::disabled("two".to_owned()).enabled);
    assert_eq!(PickerError::Empty.message(), "picker has no items");
    assert_eq!(PickerError::NoEnabledItems.message(), "picker has no enabled items");
    assert_eq!(PickerError::Cancelled.message(), "picker cancelled");
    let io = PickerError::Io(std::io::Error::new(std::io::ErrorKind::Other, "boom"));
    assert_eq!(io.message(), "I/O error: boom");
}

#[test]
fn help_lists_builtin_provider_specific_commands() {
    assert!(HELP_TEXT.contains("tau provider chatgpt login"));
    assert!(HELP_TEXT.contains("tau provider chat-completions add"));
}

#[test]
fn unknown_provider_is_rejected_before_dispatch() {
    let args = vec!["missing".to_owned(), "login".to_owned()];
    let ProviderCommand::Unknown(error) = provider_command(&args) else {
        panic!("unknown provider should fail");
    };
    assert!(error.contains("unknown provider: missing"));
    assert_eq!(provider_command(&Vec::new()), ProviderCommand::Help);
    assert_eq!(provider_command(&args_of("chatgpt")), ProviderCommand::ChatGpt);
}

fn args_of(s: &str) -> Vec<String> {
    vec![s.to_owned()]
}

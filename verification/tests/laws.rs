use tau::cbor::CborValue;
use tau::cli::{mark_agent_resumed, mark_agent_suspended};
use tau::context::{cbor_tool_response_text, ToolResponse};
use tau::prompt::civil_from_days;
use tau::style::{Span, Style, StyledText};
use tau::system_prompt::nickel_skills_literal;
use tau::text::{parse_unsigned, push_decimal};
use tau::usage::TokenUsageStats;

fn text(s: &str) -> CborValue {
    CborValue::Text(s.to_owned())
}

#[test]
fn totals_are_sums_of_model_buckets() {
    let mut stats = TokenUsageStats::default();
    stats.start_request("gpt-b");
    stats.add_sent("gpt-b", 100, 40);
    stats.start_request("gpt-a");
    stats.add_sent("gpt-a", 7, 0);
    stats.add_received("gpt-b", 30);
    stats.add_received("gpt-a", 5);
    stats.start_request("gpt-b");
    let sum = |f: fn(&tau::usage::TokenUsageCounts) -> u64| stats.by_model.iter().map(|(_, c)| f(c)).sum::<u64>();
    assert_eq!(stats.total.requests, sum(|c| c.requests));
    assert_eq!(stats.total.sent_tokens, sum(|c| c.sent_tokens));
    assert_eq!(stats.total.cached_tokens, sum(|c| c.cached_tokens));
    assert_eq!(stats.total.received_tokens, sum(|c| c.received_tokens));
    assert_eq!(stats.total.requests, 3);
    let names: Vec<&str> = stats.by_model.iter().map(|(n, _)| n.as_str()).collect();
    assert_eq!(names, vec!["gpt-a", "gpt-b"]);
}

#[test]
fn cells_spell_text_without_newlines() {
    let text = StyledText::from_spans(vec![
        Span::plain("one\ntwo".to_owned()),
        Span::new("\n3\u{fe0f}".to_owned(), Style::default().italic()),
    ]);
    let spelled: String = text.to_cells().iter().map(|c| c.ch).collect();
    assert_eq!(spelled, "onetwo3\u{fe0f}");
}

#[test]
fn resume_undoes_suspend() {
    let mut suspended = vec!["a".to_owned(), "b".to_owned()];
    mark_agent_suspended(&mut suspended, "c");
    mark_agent_resumed(&mut suspended, "c");
    assert_eq!(suspended, vec!["a", "b"]);
    mark_agent_suspended(&mut suspended, "a");
    assert_eq!(suspended, vec!["a", "b"]);
    mark_agent_resumed(&mut suspended, "a");
    assert_eq!(suspended, vec!["b"]);
}

#[test]
fn normalized_response_renders_as_direct_text() {
    let values = vec![
        CborValue::Dict(vec![
            (text("path"), text("a.rs")),
            (text("output"), text("body")),
            (text("notes"), text("x\ny")),
        ]),
        CborValue::Array(vec![text("a"), CborValue::Integer(-3), CborValue::Bool(true)]),
        CborValue::Bytes(vec![1, 2, 3]),
        CborValue::Null,
    ];
    for value in &values {
        assert_eq!(ToolResponse::from_cbor(value).render(), cbor_tool_response_text(value));
    }
    assert_eq!(cbor_tool_response_text(&values[0]), "path: a.rs\n\nbody\nnotes:\nx\ny");
}

#[test]
fn consecutive_days_have_distinct_dates() {
    let mut previous = civil_from_days(0);
    assert_eq!(previous, (1970, 1, 1));
    for day in 1..800u64 {
        let date = civil_from_days(day);
        assert_ne!(date, previous);
        previous = date;
    }
    assert_eq!(civil_from_days(59), (1970, 3, 1));
    assert_eq!(civil_from_days(789), (1972, 2, 29));
}

fn skill(name: &str, description: &str, add_to_prompt: bool) -> tau::system_prompt::PromptSkill {
    tau::system_prompt::PromptSkill { name: name.to_owned(), description: description.to_owned(), add_to_prompt }
}

#[test]
fn skills_literal_ignores_input_order() {
    let a = nickel_skills_literal(vec![skill("zeta", "last", true), skill("alpha", "first \"q\"", true), skill("hidden", "x", false)]);
    let b = nickel_skills_literal(vec![skill("hidden", "x", false), skill("alpha", "first \"q\"", true), skill("zeta", "last", true)]);
    assert_eq!(a, b);
    assert!(a.starts_with("[{ name = \"alpha\""));
    assert!(!a.contains("hidden"));
}

fn entry(command: &str, enable: bool) -> tau::settings::ExtensionEntry {
    tau::settings::ExtensionEntry {
        enable: Some(enable),
        command: Some(vec![command.to_owned(), "--flag".to_owned()]),
        ..Default::default()
    }
}

fn resolved_names(entries: Vec<(String, tau::settings::ExtensionEntry)>) -> Vec<(String, String, Vec<String>)> {
    let settings = tau::settings::HarnessSettings { extensions: entries };
    tau::settings::resolve_extensions(settings, "/usr/bin/tau")
        .ok()
        .expect("resolves")
        .into_iter()
        .map(|e| (e.name, e.command, e.args))
        .collect()
}

#[test]
fn resolution_ignores_entry_order() {
    let forward = resolved_names(vec![
        ("b-ext".to_owned(), entry("/bin/b", true)),
        ("a-ext".to_owned(), entry("/bin/a", true)),
        ("c-ext".to_owned(), entry("/bin/c", false)),
    ]);
    let backward = resolved_names(vec![
        ("c-ext".to_owned(), entry("/bin/c", false)),
        ("a-ext".to_owned(), entry("/bin/a", true)),
        ("b-ext".to_owned(), entry("/bin/b", true)),
    ]);
    assert_eq!(forward, backward);
    assert_eq!(forward.iter().map(|(n, _, _)| n.as_str()).collect::<Vec<_>>(), vec!["a-ext", "b-ext"]);
    assert_eq!(forward[0].1, "/bin/a");
    assert_eq!(forward[0].2, vec!["--flag".to_owned()]);
}

#[test]
fn decimal_text_reads_back() {
    for n in [0u64, 7, 10, 99, 12345, u64::MAX] {
        let mut text = String::new();
        push_decimal(&mut text, u128::from(n));
        assert_eq!(text, n.to_string());
        assert_eq!(parse_unsigned(&text, u64::MAX), Some(n));
    }
    assert_eq!(parse_unsigned("500", 499), None);
}

#[test]
fn follower_gets_least_stored_sequence_at_or_after_start() {
    let mut log = tau::event_log::EventLog::new();
    log.append(None, text("a"));
    assert_eq!(log.reserve_seq().get(), 1);
    log.append(None, text("b"));
    log.append(None, text("c"));
    let seq_from = |from: u64| log.get_next_from(tau::proto::EventLogSeq::new(from)).map(|e| e.seq.get());
    assert_eq!(seq_from(0), Some(0));
    assert_eq!(seq_from(1), Some(2));
    assert_eq!(seq_from(2), Some(2));
    assert_eq!(seq_from(3), Some(3));
    assert_eq!(seq_from(4), None);
}

#[test]
fn unsaturated_counter_stays_sum_when_another_saturates() {
    let mut stats = TokenUsageStats::default();
    stats.start_request("m");
    stats.add_sent("m", u64::MAX, 0);
    stats.add_sent("m", 5, 3);
    stats.start_request("n");
    stats.add_sent("n", 0, 4);
    assert_eq!(stats.total.sent_tokens, u64::MAX);
    assert_eq!(stats.total.cached_tokens, 7);
    assert_eq!(stats.total.requests, 2);
    let cached: u64 = stats.by_model.iter().map(|(_, c)| c.cached_tokens).sum();
    let requests: u64 = stats.by_model.iter().map(|(_, c)| c.requests).sum();
    assert_eq!(stats.total.cached_tokens, cached);
    assert_eq!(stats.total.requests, requests);
}

#[test]
fn skills_with_equal_names_keep_their_order() {
    let literal = nickel_skills_literal(vec![skill("dup", "one", true), skill("alpha", "x", true), skill("dup", "two", true)]);
    assert_eq!(
        literal,
        "[{ name = \"alpha\", description = \"x\" }, { name = \"dup\", description = \"one\" }, { name = \"dup\", description = \"two\" }]"
    );
}

#[test]
fn skill_terms_are_trimmed_runs_listed_once() {
    let terms = tau::builtin::normalized_skill_query_terms("--Foo-Bar--, foo-bar; Baz! -- x");
    assert_eq!(terms, vec!["foo-bar".to_owned(), "baz".to_owned(), "x".to_owned()]);
    for t in &terms {
        assert!(!t.is_empty() && !t.starts_with('-') && !t.ends_with('-'));
    }
}

#[test]
fn lower_priority_values_come_first() {
    let low = tau::proto::PromptPriority::new(10);
    let high = tau::proto::PromptPriority::new(900);
    assert!(low < high);
    assert!(!(high < low));
    assert!(tau::priority::priority_less(low, high));
    assert!(!tau::priority::priority_less(high, high));
    assert_eq!(low.get(), 10);
    let mut hook = tau::proto::PromptHook::new();
    hook.insert((high, tau::proto::PromptContent("late".to_owned())));
    hook.insert((low, tau::proto::PromptContent("early".to_owned())));
    assert_eq!(tau::prompt::render_tool_prompt_hooks_section(&hook), "early\n\nlate");
}

#[test]
fn clock_reading_gives_its_day_and_none_gives_the_epoch() {
    assert_eq!(tau::prompt::date_from_clock(None), "1970-01-01");
    assert_eq!(tau::prompt::date_from_clock(Some(1_700_000_000)), "2023-11-14");
    assert_eq!(tau::prompt::date_from_clock(Some(86_399)), "1970-01-01");
    assert_eq!(tau::prompt::date_from_clock(Some(86_400)), "1970-01-02");
    assert_eq!(tau::prompt::chrono_free_date().len(), 10);
}

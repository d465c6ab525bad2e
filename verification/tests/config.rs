use tau::cbor::CborValue;
use tau::proto::{EventLogSeq, InterceptionPriority, PromptContent, PromptFragment, PromptPriority, SecretValue, UnixMicros};
use tau::runtime::{
    build_last_modified, build_revision, export_to_env, join_path, runtime_root_from, session_id_from_file,
    sessions_to_remove, socket_path, trim, DaemonDir,
};
use tau::settings::{resolve_extensions, ExtensionEntry, HarnessSettings, ResolveExtensionsError};
use tau::usage::{TokenUsageCounts, TokenUsageStats};

fn cbor_text(value: &str) -> CborValue {
    CborValue::Text(value.to_owned())
}

fn cbor_map(entries: Vec<(&str, CborValue)>) -> CborValue {
    CborValue::Dict(entries.into_iter().map(|(key, value)| (cbor_text(key), value)).collect())
}

fn empty_config() -> CborValue {
    cbor_map(Vec::new())
}

fn extension(suffix_arg: &str, role: &str, enable: bool, config: CborValue) -> ExtensionEntry {
    ExtensionEntry {
        suffix: Some(vec!["ext".into(), suffix_arg.into()]),
        role: Some(role.into()),
        enable: Some(enable),
        config: Some(config),
        ..Default::default()
    }
}

fn settings_with_test_extensions() -> HarnessSettings {
    HarnessSettings {
        extensions: vec![
            ("provider-openai".to_owned(), extension("ext-provider-openai", "provider", true, empty_config())),
            ("core-shell".to_owned(), extension("ext-shell", "tool", true, empty_config())),
            ("test-dummy".to_owned(), extension("ext-test-dummy", "tool", false, empty_config())),
            (
                "std-notifications".to_owned(),
                extension(
                    "ext-std-notifications",
                    "tool",
                    true,
                    cbor_map(vec![("idle_seconds", CborValue::Integer(60)), ("idle_agent_summary", CborValue::Bool(false))]),
                ),
            ),
        ],
    }
}

fn set(settings: &mut HarnessSettings, name: &str, entry: ExtensionEntry) {
    if let Some(slot) = settings.extensions.iter_mut().find(|(n, _)| n == name) {
        slot.1 = entry;
    } else {
        settings.extensions.push((name.to_owned(), entry));
    }
}

const TAU: &str = "/usr/bin/tau";

#[test]
fn resolve_extensions_returns_builtins_when_user_config_empty() {
    let resolved = resolve_extensions(settings_with_test_extensions(), TAU).ok().expect("resolve");
    assert_eq!(resolved.len(), 3);
    let names: Vec<&str> = resolved.iter().map(|e| e.name.as_str()).collect();
    assert_eq!(names, vec!["core-shell", "provider-openai", "std-notifications"]);
    let provider = resolved.iter().find(|e| e.name == "provider-openai").expect("provider");
    assert!(!provider.command.is_empty());
    assert_eq!(provider.command, TAU);
    assert_eq!(provider.args, vec!["ext", "ext-provider-openai"]);
    assert_eq!(provider.role.as_deref(), Some("provider"));
}

#[test]
fn resolve_extensions_builtin_can_start_disabled() {
    let resolved = resolve_extensions(settings_with_test_extensions(), TAU).ok().expect("resolve");
    assert!(resolved.iter().all(|e| e.name != "test-dummy"));
}

#[test]
fn resolve_extensions_disable_drops_entry() {
    let mut s = settings_with_test_extensions();
    set(&mut s, "core-shell", ExtensionEntry { enable: Some(false), ..Default::default() });
    let resolved = resolve_extensions(s, TAU).ok().expect("resolve");
    assert_eq!(resolved.len(), 2);
    let names: Vec<&str> = resolved.iter().map(|e| e.name.as_str()).collect();
    assert_eq!(names, vec!["provider-openai", "std-notifications"]);
}

#[test]
fn resolve_extensions_prefix_wraps_builtin_command() {
    let mut s = settings_with_test_extensions();
    s.extensions[0].1.prefix = Some(vec!["ssh".into(), "user@host".into()]);
    let resolved = resolve_extensions(s, TAU).ok().expect("resolve");
    let provider = resolved.iter().find(|e| e.name == "provider-openai").expect("provider");
    assert_eq!(provider.command, "ssh");
    assert_eq!(provider.args[0], "user@host");
    assert!(!provider.args[1].is_empty());
    assert_eq!(&provider.args[2..], ["ext", "ext-provider-openai"]);
}

#[test]
fn resolve_extensions_user_command_replaces_builtin_command() {
    let mut s = settings_with_test_extensions();
    s.extensions[0].1.command = Some(vec!["/usr/local/bin/my-provider".into(), "--flag".into()]);
    let resolved = resolve_extensions(s, TAU).ok().expect("resolve");
    let provider = resolved.iter().find(|e| e.name == "provider-openai").expect("provider");
    assert_eq!(provider.command, "/usr/local/bin/my-provider");
    assert_eq!(provider.args, vec!["--flag"]);
    assert_eq!(provider.role.as_deref(), Some("provider"));
}

#[test]
fn resolve_extensions_adds_user_extension_keys() {
    let mut s = settings_with_test_extensions();
    set(&mut s, "mything", ExtensionEntry { command: Some(vec!["/usr/local/bin/mything".into()]), ..Default::default() });
    let resolved = resolve_extensions(s, TAU).ok().expect("resolve");
    assert_eq!(resolved.len(), 4);
    let mything = resolved.iter().find(|e| e.name == "mything").expect("mything");
    assert_eq!(mything.command, "/usr/local/bin/mything");
    assert!(mything.role.is_none());
    assert!(matches!(&mything.config, CborValue::Dict(entries) if entries.is_empty()));
}

#[test]
fn resolve_extensions_user_extension_without_command_errors() {
    let mut s = settings_with_test_extensions();
    set(&mut s, "broken", ExtensionEntry { ..Default::default() });
    let err = resolve_extensions(s, TAU).err().expect("must err");
    match &err {
        ResolveExtensionsError::EmptyCommand(name) => assert_eq!(name, "broken"),
    }
    assert_eq!(
        err.message(),
        "extension \"broken\" has no `command` set; entries must specify an executable or a tau subcommand suffix"
    );
}

#[test]
fn runtime_paths_and_session_ids() {
    assert_eq!(socket_path("/run/tau/12"), "/run/tau/12/tau.sock");
    assert_eq!(join_path("/run/tau/", "x"), "/run/tau/x");
    assert_eq!(join_path("", "x"), "x");
    let dir = DaemonDir { path: "/run/tau/7".to_owned(), project_root: "/p".to_owned() };
    assert_eq!(dir.socket_path(), "/run/tau/7/tau.sock");
    assert_eq!(dir.marker_path(), "/run/tau/7/tau.dir");
    assert_eq!(session_id_from_file("  sess-1 \n"), Some("sess-1".to_owned()));
    assert_eq!(session_id_from_file(" \n\t"), None);
    assert_eq!(trim("\u{3000}a b "), "a b");
    assert_eq!(runtime_root_from(Some("/run/user/1000".to_owned()), None), "/run/user/1000/tau");
    assert_eq!(runtime_root_from(None, Some("dpc".to_owned())), "/tmp/tau-dpc");
    assert_eq!(runtime_root_from(None, None), "/tmp/tau-unknown");
}

#[test]
fn build_metadata_text() {
    assert_eq!(build_revision(Some("abc123"), Some(true)), "abc123-modified");
    assert_eq!(build_revision(Some("abc123"), Some(false)), "abc123");
    assert_eq!(build_revision(None, Some(true)), "unknown");
    assert_eq!(build_last_modified(Some("2024-05-01 10:00"), None), Some("2024-05-01 10:00".to_owned()));
    assert_eq!(build_last_modified(Some(""), Some("2024-01-02 03:04".to_owned())), Some("2024-01-02 03:04".to_owned()));
    assert_eq!(build_last_modified(None, Some("1980-01-01 00:00".to_owned())), None);
    let vars = export_to_env("0.1.0", "abc".to_owned(), None);
    assert_eq!(vars, vec![("TAU_VERSION".to_owned(), "0.1.0".to_owned()), ("TAU_BUILD".to_owned(), "abc".to_owned())]);
}

#[test]
fn old_sessions_are_selected_by_cutoff() {
    let sessions = vec![("old".to_owned(), 100u64), ("new".to_owned(), 1_000u64), ("edge".to_owned(), 400u64)];
    assert_eq!(sessions_to_remove(1_000, 600, &sessions), vec!["old".to_owned(), "edge".to_owned()]);
    assert_eq!(sessions_to_remove(10, 600, &sessions), Vec::<String>::new());
}

#[test]
fn token_usage_buckets_per_model() {
    let mut stats = TokenUsageStats::default();
    stats.start_request("b-model");
    stats.start_request("a-model");
    stats.start_request("b-model");
    stats.add_sent("b-model", 100, 40);
    stats.add_received("a-model", 7);
    assert_eq!(stats.total.requests, 3);
    assert_eq!(stats.total.sent_tokens, 100);
    assert_eq!(stats.total.cached_tokens, 40);
    assert_eq!(stats.total.received_tokens, 7);
    let names: Vec<&str> = stats.by_model.iter().map(|(n, _)| n.as_str()).collect();
    assert_eq!(names, vec!["a-model", "b-model"]);
    assert_eq!(stats.by_model[1].1.requests, 2);
    assert_eq!(stats.by_model[1].1.sent_tokens, 100);
    assert_eq!(stats.by_model[0].1.received_tokens, 7);
    let mut sat = TokenUsageStats::default();
    sat.add_sent("m", u64::MAX, 0);
    sat.add_sent("m", 5, 0);
    assert_eq!(sat.total.sent_tokens, u64::MAX);
    assert_eq!(TokenUsageCounts::default().with_in_progress_received(9).in_progress_received_tokens, 9);
}

#[test]
fn protocol_value_wrappers() {
    assert_eq!(PromptPriority::new(900).get(), 900);
    assert_eq!(InterceptionPriority::new(-3).get(), -3);
    assert_eq!(EventLogSeq::new(4).next().get(), 5);
    assert_eq!(UnixMicros::new(12).get(), 12);
    assert!(UnixMicros::now().get() > 0);
    let content = PromptContent::new("x".to_owned());
    assert!(!content.is_empty());
    assert_eq!(content.as_str(), "x");
    assert!(PromptContent::new(String::new()).is_empty());
    let fragment = PromptFragment::new("calendar.instructions".to_owned(), PromptPriority::new(120), content);
    assert_eq!(fragment.template.into_string(), "x");
    let secret = SecretValue::new("hunter2".to_owned());
    assert_eq!(secret.expose_secret(), "hunter2");
    assert_eq!(secret.redacted(), "<redacted>");
}

use tau::calendar::{route_calendar_command, CalendarRoute};
use tau::calendar::{
    answer_call, format_calendars, format_events, unsupported_backend_error, write_unavailable_error,
    CalendarAccountConfig, CalendarBackendConfig, CalendarCommand, CalendarExtensionConfig, CalendarListing,
    ConfigState, IcsEvent, RuntimeState,
};
use tau::cbor::CborValue;
use tau::tool::{PromptOriginator, ToolOutcome, ToolResultKind, ToolStarted, ToolType};

fn event(id: &str, summary: &str, time_unparsed: bool) -> IcsEvent {
    IcsEvent {
        id: id.to_owned(),
        uid: format!("{id}@feed"),
        start: "2024-03-01T09:00:00Z".to_owned(),
        end: "2024-03-01T10:00:00Z".to_owned(),
        summary: summary.to_owned(),
        status: Some("CONFIRMED".to_owned()),
        location: None,
        organizer: None,
        attendees: Vec::new(),
        description: None,
        recurring: false,
        time_unparsed,
    }
}

fn work_config() -> tau::calendar::ValidatedConfig {
    let cfg = CalendarExtensionConfig {
        enable: true,
        accounts: vec![CalendarAccountConfig { id: "work".to_owned(), enable: true, ..Default::default() }],
    };
    cfg.validate().ok().expect("valid config")
}

fn invoke() -> ToolStarted {
    ToolStarted { call_id: "call-1".to_owned(), tool_name: "calendar".to_owned(), arguments: CborValue::Null, originator: PromptOriginator::User }
}

#[test]
fn event_list_and_free_busy_answers() {
    let config = work_config();
    let account = &config.accounts[0];
    let events = vec![event("e1", "Stand up", false), event("e2", "Lunch", true)];
    assert_eq!(
        format_events(account, "team cal", &events, false),
        "format: account calendar event_id start end flags status summary\n\
         work team_cal e1 2024-03-01T09:00:00Z 2024-03-01T10:00:00Z read_only CONFIRMED Stand_up\n\
         work team_cal e2 2024-03-01T09:00:00Z 2024-03-01T10:00:00Z read_only,time_unparsed CONFIRMED Lunch"
    );
    assert_eq!(
        format_events(account, "team cal", &events, true),
        "format: account calendar event_id start end flags\n\
         work team_cal e1 2024-03-01T09:00:00Z 2024-03-01T10:00:00Z read_only\n\
         work team_cal e2 2024-03-01T09:00:00Z 2024-03-01T10:00:00Z read_only,time_unparsed"
    );
    assert_eq!(format_events(account, "c", &Vec::new(), true), "format: account calendar event_id start end flags");
}

#[test]
fn refusals_name_account_backend_and_command() {
    let config = work_config();
    let account = &config.accounts[0];
    assert_eq!(
        unsupported_backend_error(account, "event reads"),
        "calendar account `work` backend `none` does not support event reads yet"
    );
    assert_eq!(
        write_unavailable_error(CalendarCommand::CreateEvent),
        "calendar command `create_event` is not available for read-only backends yet"
    );
}

#[test]
fn module_state_explains_unavailable_calls() {
    let mut state = RuntimeState::new();
    assert_eq!(state.unavailable_reason().as_deref(), Some("calendar module has not been configured"));
    let bad = CalendarExtensionConfig {
        enable: true,
        accounts: vec![CalendarAccountConfig { id: String::new(), ..Default::default() }],
    };
    let err = state.configure_with_config(bad, Vec::new()).err().expect("rejected");
    assert_eq!(
        state.unavailable_reason(),
        Some(format!("calendar module configuration was rejected: {err}"))
    );
    let good = CalendarExtensionConfig { enable: true, accounts: Vec::new() };
    assert!(state.configure_with_config(good, Vec::new()).is_ok());
    assert!(matches!(state.config_state, ConfigState::Configured { .. }));
    assert_eq!(state.unavailable_reason(), None);
}

#[test]
fn calls_are_answered_with_text_or_error() {
    match answer_call(invoke(), Ok("format: x".to_owned())) {
        ToolOutcome::Result { call_id, tool_name, tool_type, result: CborValue::Text(text), kind, display: None, originator } => {
            assert_eq!((tool_type, kind, originator), (ToolType::Function, ToolResultKind::Final, PromptOriginator::User));
            assert_eq!((call_id.as_str(), tool_name.as_str(), text.as_str()), ("call-1", "calendar", "format: x"));
        }
        other => panic!("unexpected {other:?}"),
    }
    match answer_call(invoke(), Err("nope".to_owned())) {
        ToolOutcome::Error { call_id, message, details: None, display: None, .. } => {
            assert_eq!((call_id.as_str(), message.as_str()), ("call-1", "nope"));
        }
        other => panic!("unexpected {other:?}"),
    }
}

#[test]
fn dispatch_runs_the_engine_only_when_configured() {
    let mut state = RuntimeState::new();
    let refused = state.dispatch(invoke(), |_, _, _| Ok("never".to_owned()));
    assert!(matches!(refused, ToolOutcome::Error { message, .. } if message == "calendar module has not been configured"));

    let good = CalendarExtensionConfig {
        enable: true,
        accounts: vec![CalendarAccountConfig { id: "work".to_owned(), enable: true, ..Default::default() }],
    };
    assert!(state.configure_with_config(good, Vec::new()).is_ok());
    let answered = state.dispatch(invoke(), |config, _, _| Ok(config.list_accounts()));
    match answered {
        ToolOutcome::Result { result: CborValue::Text(text), .. } => {
            assert_eq!(text, "format: id flags backend default_calendar timezone display_name\nwork enabled none - - -");
        }
        other => panic!("unexpected {other:?}"),
    }
    let failed = state.dispatch(invoke(), |_, _, _| Err("limit must be a positive integer".to_owned()));
    assert!(matches!(failed, ToolOutcome::Error { message, .. } if message == "limit must be a positive integer"));
}

#[test]
fn calendar_list_covers_feed_accounts_only() {
    let cfg = CalendarExtensionConfig {
        enable: true,
        accounts: vec![
            CalendarAccountConfig {
                id: "feed".to_owned(),
                enable: true,
                backend: Some(CalendarBackendConfig::IcsFeed { url_secret: None, url: Some("https://x/cal.ics".to_owned()) }),
                ..Default::default()
            },
            CalendarAccountConfig { id: "other".to_owned(), enable: true, ..Default::default() },
        ],
    };
    let config = cfg.validate().ok().expect("valid");
    let accounts = config.accounts_for_read(None).ok().expect("accounts");
    let listings = vec![
        vec![
            CalendarListing { id: "default".to_owned(), display_name: "Team Feed".to_owned(), read_only: true },
            CalendarListing { id: "x".to_owned(), display_name: "X".to_owned(), read_only: false },
        ],
        vec![CalendarListing { id: "hidden".to_owned(), display_name: "H".to_owned(), read_only: true }],
    ];
    assert_eq!(
        format_calendars(&accounts, &listings),
        "format: account calendar flags backend display_name\nfeed default read_only ics_feed Team_Feed\nfeed x writable ics_feed X"
    );
}

#[test]
fn commands_route_to_answers_or_backend_reads() {
    let config = work_config();
    match route_calendar_command(&config, Err("missing field `command`".to_owned())) {
        CalendarRoute::Answer(Err(m)) => assert_eq!(m, "invalid calendar tool arguments: missing field `command`"),
        _ => panic!("expected an argument error"),
    }
    match route_calendar_command(&config, Ok(CalendarCommand::ListAccounts)) {
        CalendarRoute::Answer(Ok(text)) => assert_eq!(text, config.list_accounts()),
        _ => panic!("expected the account list"),
    }
    match route_calendar_command(&config, Ok(CalendarCommand::DeleteEvent)) {
        CalendarRoute::Answer(Err(m)) => assert_eq!(m, "calendar command `delete_event` is not available for read-only backends yet"),
        _ => panic!("expected a write refusal"),
    }
    for command in [CalendarCommand::ListCalendars, CalendarCommand::ListEvents, CalendarCommand::ReadEvent, CalendarCommand::FreeBusy] {
        match route_calendar_command(&config, Ok(command)) {
            CalendarRoute::Read(c) => assert_eq!(c, command),
            _ => panic!("expected a backend read"),
        }
    }
}

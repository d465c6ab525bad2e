use tau::calendar::{
    command_name, event_flags, format_event_detail, format_event_line, normalized_limit, required_arg, safe_field,
    safe_multiline, CalendarAccountConfig, CalendarBackendConfig, CalendarCommand, CalendarExtensionConfig,
    CalendarSelectionConfig, IcsEvent, RuntimeState,
};
use tau::cbor::CborValue;
use tau::event_log::EventLog;
use tau::proto::EventLogSeq;

#[test]
fn list_accounts_reports_enabled_configured_accounts() {
    let cfg = CalendarExtensionConfig {
        enable: true,
        accounts: vec![CalendarAccountConfig {
            id: "work".to_owned(),
            enable: true,
            display_name: Some("Work Calendar".to_owned()),
            backend: Some(CalendarBackendConfig::Google { oauth_profile: Some("work".to_owned()) }),
            calendars: Default::default(),
            timezone: Some("UTC".to_owned()),
        }],
    };
    let config = match cfg.validate() {
        Ok(config) => config,
        Err(err) => panic!("valid calendar config: {err}"),
    };
    assert_eq!(
        config.list_accounts(),
        "format: id flags backend default_calendar timezone display_name\nwork enabled google - UTC Work_Calendar"
    );
}

#[test]
fn duplicate_account_ids_are_rejected() {
    let cfg = CalendarExtensionConfig {
        enable: true,
        accounts: vec![
            CalendarAccountConfig { id: "work".to_owned(), ..Default::default() },
            CalendarAccountConfig { id: "work".to_owned(), ..Default::default() },
        ],
    };
    let err = match cfg.validate() {
        Ok(_) => panic!("duplicate ids should fail"),
        Err(err) => err,
    };
    assert!(err.contains("duplicate calendar account id"), "{err}");
}

#[test]
fn ics_feed_requires_exactly_one_url_source() {
    let cfg = CalendarExtensionConfig {
        enable: true,
        accounts: vec![CalendarAccountConfig {
            id: "feed".to_owned(),
            backend: Some(CalendarBackendConfig::IcsFeed { url_secret: None, url: None }),
            ..Default::default()
        }],
    };
    let err = match cfg.validate() {
        Ok(_) => panic!("missing feed source should fail"),
        Err(err) => err,
    };
    assert!(err.contains("requires exactly one"), "{err}");
}

#[test]
fn calendar_validation_messages() {
    let blank = CalendarExtensionConfig {
        enable: true,
        accounts: vec![CalendarAccountConfig { id: "  ".to_owned(), ..Default::default() }],
    };
    assert_eq!(blank.validate().err().as_deref(), Some("calendar account id must not be empty"));

    let control = CalendarExtensionConfig {
        enable: true,
        accounts: vec![CalendarAccountConfig {
            id: "a".to_owned(),
            calendars: CalendarSelectionConfig { default: None, allow: vec!["ok".to_owned(), "bad\u{1}".to_owned()] },
            ..Default::default()
        }],
    };
    assert_eq!(
        control.validate().err().as_deref(),
        Some("calendar id pattern must not contain control characters")
    );

    let both = CalendarExtensionConfig {
        enable: true,
        accounts: vec![CalendarAccountConfig {
            id: "a".to_owned(),
            backend: Some(CalendarBackendConfig::IcsFeed {
                url_secret: Some("s".to_owned()),
                url: Some("https://x".to_owned()),
            }),
            ..Default::default()
        }],
    };
    assert_eq!(both.validate().err().as_deref(), Some("ics_feed accepts only one of url_secret or url"));
}

#[test]
fn calendar_runtime_records_rejection() {
    let mut state = RuntimeState::new();
    let cfg = CalendarExtensionConfig {
        enable: true,
        accounts: vec![CalendarAccountConfig { id: String::new(), ..Default::default() }],
    };
    assert!(state.configure_with_config(cfg, Vec::new()).is_err());
    assert!(matches!(state.config_state, tau::calendar::ConfigState::Rejected { .. }));
}

#[test]
fn calendar_account_lookup_and_limits() {
    let cfg = CalendarExtensionConfig {
        enable: true,
        accounts: vec![
            CalendarAccountConfig { id: "a".to_owned(), enable: true, ..Default::default() },
            CalendarAccountConfig { id: "b".to_owned(), enable: false, ..Default::default() },
        ],
    };
    let config = cfg.validate().ok().expect("valid");
    assert_eq!(config.account_by_id("b").err().as_deref(), Some("calendar account `b` is disabled"));
    assert_eq!(config.account_by_id("c").err().as_deref(), Some("unknown calendar account `c`"));
    assert_eq!(config.single_account(None).ok().map(|a| a.id.as_str()), Some("a"));
    assert_eq!(config.accounts_for_read(None).ok().map(|v| v.len()), Some(1));
    assert_eq!(normalized_limit(None), Ok(50));
    assert_eq!(normalized_limit(Some(500)), Ok(100));
    assert_eq!(normalized_limit(Some(0)), Err("limit must be a positive integer".to_owned()));
    assert_eq!(required_arg(Some("  "), "event_id"), Err("event_id is required".to_owned()));
    assert_eq!(required_arg(Some("x"), "event_id"), Ok("x"));
}

#[test]
fn calendar_fields_and_event_text() {
    assert_eq!(safe_field("Work  Calendar\tQ1"), "Work_Calendar_Q1");
    assert_eq!(safe_field("a\u{1}b"), "a_b");
    assert_eq!(safe_multiline(" line one\r\nline  two "), "line one line two");
    assert_eq!(command_name(CalendarCommand::RespondInvite), "respond_invite");
    let event = IcsEvent {
        id: "e1".to_owned(),
        uid: "u1".to_owned(),
        start: "2024-01-01T10:00:00Z".to_owned(),
        end: "2024-01-01T11:00:00Z".to_owned(),
        summary: "Team sync".to_owned(),
        status: None,
        location: Some("Room 1".to_owned()),
        organizer: None,
        attendees: vec!["a@x".to_owned(), "b@x".to_owned()],
        description: Some("Agenda\nitems".to_owned()),
        recurring: true,
        time_unparsed: false,
    };
    assert_eq!(event_flags(&event), "read_only,recurring_unexpanded");
    let cfg = CalendarExtensionConfig {
        enable: true,
        accounts: vec![CalendarAccountConfig { id: "work".to_owned(), enable: true, ..Default::default() }],
    };
    let config = cfg.validate().ok().expect("valid");
    let account = &config.accounts[0];
    assert_eq!(
        format_event_line(account, "primary", &event),
        "work primary e1 2024-01-01T10:00:00Z 2024-01-01T11:00:00Z read_only,recurring_unexpanded - Team_sync"
    );
    assert_eq!(
        format_event_detail(account, "primary", &event),
        "format: key value\naccount work\ncalendar primary\nevent_id e1\nuid u1\nstart 2024-01-01T10:00:00Z\nend 2024-01-01T11:00:00Z\nflags read_only,recurring_unexpanded\nsummary Team_sync\nlocation Room_1\nattendees a@x,b@x\ndescription Agenda items"
    );
}

fn info(message: &str) -> CborValue {
    CborValue::Text(message.to_owned())
}

#[test]
fn append_and_get() {
    let mut log = EventLog::new();
    let (seq, recorded_at) = log.append(Some("conn-1".into()), info("hello"));
    assert_eq!(seq.get(), 0);
    assert!(recorded_at.get() > 0, "append should stamp wall-clock time");

    let entry = log.get_next_from(EventLogSeq::new(0)).expect("entry should exist");
    assert_eq!(entry.seq.get(), 0);
    assert_eq!(entry.recorded_at, recorded_at);
    assert_eq!(entry.source, Some("conn-1".into()));

    assert!(log.get_next_from(EventLogSeq::new(1)).is_none());
}

#[test]
fn get_next_from_skips_earlier() {
    let mut log = EventLog::new();
    log.append(None, info("a"));
    log.append(None, info("b"));
    log.append(None, info("c"));

    let entry = log.get_next_from(EventLogSeq::new(1)).expect("entry should exist");
    assert_eq!(entry.seq.get(), 1);
    let CborValue::Text(message) = &entry.event else {
        panic!("expected text event");
    };
    assert_eq!(message, "b");
}

#[test]
fn reserved_sequences_are_skipped_by_followers() {
    let mut log = EventLog::new();
    log.append(None, info("a"));
    assert_eq!(log.reserve_seq().get(), 1);
    let (seq, _) = log.append(None, info("b"));
    assert_eq!(seq.get(), 2);
    assert_eq!(log.next_seq().get(), 3);
    assert_eq!(log.get_next_from(EventLogSeq::new(1)).map(|e| e.seq.get()), Some(2));
}

use personaliz::poller::{
    handler_action_kind, handler_eligible, run_sweep, sweep_handlers_at, ActionKind, EventPoller,
};
use personaliz::store::{Database, EventHandler};

fn handler(event_type: &str, interval: i64, last_check: Option<&str>) -> EventHandler {
    EventHandler {
        id: None,
        name: "watch".to_string(),
        event_type: event_type.to_string(),
        url: Some("http://localhost:8080/poll".to_string()),
        interval_seconds: interval,
        last_check: last_check.map(|s| s.to_string()),
        is_active: true,
        config_json: "{}".to_string(),
    }
}

#[test]
fn interval_gates_eligibility_with_inclusive_boundary() {
    // last check at second 15, evaluated at second 30: 15 seconds elapsed
    let last = Some("1970-01-01T00:00:15+00:00");
    assert!(handler_eligible(&handler("polling", 10, last), 30));
    assert!(!handler_eligible(&handler("polling", 20, last), 30));
    assert!(handler_eligible(&handler("polling", 15, last), 30)); // boundary included
    assert!(!handler_eligible(&handler("polling", 16, last), 30));
}

#[test]
fn never_checked_handler_is_eligible() {
    assert!(handler_eligible(&handler("polling", 1000000, None), 0));
}

#[test]
fn unparseable_last_check_is_always_eligible() {
    let h = handler("polling", 1000000, Some("three days past the solstice"));
    assert!(handler_eligible(&h, 0));
    assert!(handler_eligible(&h, i64::MAX));
}

#[test]
fn action_kind_follows_handler_type() {
    assert_eq!(
        handler_action_kind(&handler("polling", 10, None)),
        ActionKind::PollUrl
    );
    assert_eq!(
        handler_action_kind(&handler("web", 10, None)),
        ActionKind::WebUrl
    );
    assert_eq!(
        handler_action_kind(&handler("periodic", 10, None)),
        ActionKind::Periodic
    );
    assert_eq!(
        handler_action_kind(&handler("lunar", 10, None)),
        ActionKind::Unrecognized
    );
    let mut bare = handler("polling", 10, None);
    bare.url = None;
    assert_eq!(handler_action_kind(&bare), ActionKind::MissingUrl);
    let mut bare_web = handler("web", 10, None);
    bare_web.url = None;
    assert_eq!(handler_action_kind(&bare_web), ActionKind::MissingUrl);
}

#[test]
fn sweep_overwrites_corrupt_last_check_and_skips_recent() {
    let mut db = Database::new().unwrap();
    let mut corrupt = handler("polling", 1000000, Some("not a timestamp"));
    corrupt.name = "corrupt".to_string();
    let corrupt_id = db.create_event_handler(&corrupt).unwrap();

    let mut recent = handler("web", 1000000, Some("1970-01-01T00:00:25+00:00"));
    recent.name = "recent".to_string();
    db.create_event_handler(&recent).unwrap();

    let actions = sweep_handlers_at(&mut db, 30, "1970-01-01T00:00:30+00:00");
    // only the corrupt one was due: fail-open, evaluated, rewritten
    assert_eq!(actions, vec![(corrupt_id, ActionKind::PollUrl)]);

    let rows = db.get_all_event_handlers().unwrap();
    let corrupt_row = rows.iter().find(|h| h.name == "corrupt").unwrap();
    assert_eq!(
        corrupt_row.last_check.as_deref(),
        Some("1970-01-01T00:00:30+00:00")
    );
    let recent_row = rows.iter().find(|h| h.name == "recent").unwrap();
    assert_eq!(
        recent_row.last_check.as_deref(),
        Some("1970-01-01T00:00:25+00:00")
    );
}

#[test]
fn sweep_ignores_inactive_handlers() {
    let mut db = Database::new().unwrap();
    let mut off = handler("polling", 10, None);
    off.is_active = false;
    db.create_event_handler(&off).unwrap();
    let actions = sweep_handlers_at(&mut db, 30, "1970-01-01T00:00:30+00:00");
    assert!(actions.is_empty());
}

#[test]
fn sweep_with_real_clock_writes_a_parseable_stamp() {
    let mut db = Database::new().unwrap();
    let id = db
        .create_event_handler(&handler("polling", 1000000, Some("garbage")))
        .unwrap();
    let actions = run_sweep(&mut db);
    assert_eq!(actions, vec![(id, ActionKind::PollUrl)]);

    let rows = db.get_all_event_handlers().unwrap();
    let stamp = rows[0].last_check.clone().unwrap();
    let written = chrono::DateTime::parse_from_rfc3339(&stamp).unwrap().timestamp();
    let now = chrono::Utc::now().timestamp();
    assert!((now - written).abs() < 3600);
    // freshly stamped and far inside its interval: no longer eligible
    assert!(!handler_eligible(&rows[0], now));
}

#[test]
fn start_twice_runs_one_loop_and_stop_twice_is_a_noop() {
    let mut p = EventPoller::new();
    assert!(!p.is_running());
    assert!(p.start()); // spawn a sweep loop
    assert!(p.is_running());
    assert!(!p.start()); // already running: nothing to spawn
    assert!(p.is_running());
    p.stop();
    assert!(!p.is_running());
    p.stop();
    assert!(!p.is_running());
    assert!(p.start()); // a fresh start spawns again
}

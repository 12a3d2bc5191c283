use personaliz::store::{Agent, AgentLog, Database, EventHandler, StoreError};

fn sample_agent(name: &str) -> Agent {
    Agent {
        id: None,
        name: name.to_string(),
        description: Some("checks the morning mail".to_string()),
        role: Some("assistant".to_string()),
        goal: Some("keep the inbox empty".to_string()),
        tools: Some("[\"browser\"]".to_string()),
        schedule: "daily".to_string(),
        schedule_time: Some("08:00".to_string()),
        command: "node".to_string(),
        args: "[\"mail.js\"]".to_string(),
        timeout: 300000,
        config_json: "{}".to_string(),
        created_at: String::new(),
        updated_at: String::new(),
        is_active: true,
    }
}

fn sample_log(agent_id: i64, message: &str) -> AgentLog {
    AgentLog {
        id: None,
        agent_id,
        agent_name: "mailer".to_string(),
        event_type: "executed".to_string(),
        message: message.to_string(),
        details: None,
        timestamp: String::new(),
    }
}

fn sample_handler(name: &str, event_type: &str, interval: i64) -> EventHandler {
    EventHandler {
        id: None,
        name: name.to_string(),
        event_type: event_type.to_string(),
        url: Some("http://localhost:8080/poll".to_string()),
        interval_seconds: interval,
        last_check: None,
        is_active: true,
        config_json: "{}".to_string(),
    }
}

#[test]
fn test_database_creation() {
    let db = Database::new().unwrap();
    assert!(db.get_all_agents().is_ok());
}

#[test]
fn lookup_finds_exactly_the_named_agent() {
    let mut db = Database::new().unwrap();
    let alpha = db
        .create_agent_at(&sample_agent("alpha"), "2024-01-01T08:00:00+00:00")
        .unwrap();
    let beta = db
        .create_agent_at(&sample_agent("beta"), "2024-01-01T09:00:00+00:00")
        .unwrap();
    assert_ne!(alpha, beta);

    let got = db.get_agent_by_name("alpha").unwrap().unwrap();
    assert_eq!(got.name, "alpha");
    assert_eq!(got.id, Some(alpha));

    let got = db.get_agent_by_name("beta").unwrap().unwrap();
    assert_eq!(got.name, "beta");
    assert_eq!(got.id, Some(beta));

    assert!(db.get_agent_by_name("gamma").unwrap().is_none());
    assert!(db.get_agent_by_name("alph").unwrap().is_none());
    assert!(db.get_agent_by_name("alphaa").unwrap().is_none());
}

#[test]
fn duplicate_agent_name_is_rejected() {
    let mut db = Database::new().unwrap();
    db.create_agent_at(&sample_agent("alpha"), "2024-01-01T08:00:00+00:00")
        .unwrap();
    let second = db.create_agent_at(&sample_agent("alpha"), "2024-01-01T09:00:00+00:00");
    assert_eq!(second, Err(StoreError::ConstraintViolation));

    let rows = db.get_all_agents().unwrap();
    let named: Vec<&Agent> = rows.iter().filter(|a| a.name == "alpha").collect();
    assert_eq!(named.len(), 1);
    assert_eq!(rows.len(), 1);
}

#[test]
fn agents_list_newest_created_first() {
    let mut db = Database::new().unwrap();
    db.create_agent_at(&sample_agent("a"), "2024-03-01T00:00:01+00:00")
        .unwrap();
    db.create_agent_at(&sample_agent("b"), "2024-03-01T00:00:02+00:00")
        .unwrap();
    db.create_agent_at(&sample_agent("c"), "2024-03-01T00:00:03+00:00")
        .unwrap();
    let rows = db.get_all_agents().unwrap();
    let names: Vec<&str> = rows.iter().map(|a| a.name.as_str()).collect();
    assert_eq!(names, vec!["c", "b", "a"]);
}

#[test]
fn agents_list_sorted_for_any_insertion_order() {
    let mut db = Database::new().unwrap();
    db.create_agent_at(&sample_agent("b"), "2024-03-01T00:00:02+00:00")
        .unwrap();
    db.create_agent_at(&sample_agent("c"), "2024-03-01T00:00:03+00:00")
        .unwrap();
    db.create_agent_at(&sample_agent("a"), "2024-03-01T00:00:01+00:00")
        .unwrap();
    let rows = db.get_all_agents().unwrap();
    let names: Vec<&str> = rows.iter().map(|a| a.name.as_str()).collect();
    assert_eq!(names, vec!["c", "b", "a"]);
}

#[test]
fn log_read_returns_two_most_recent_newest_first() {
    let mut db = Database::new().unwrap();
    let id = db
        .create_agent_at(&sample_agent("mailer"), "2024-03-01T00:00:00+00:00")
        .unwrap();
    for n in 1..=5 {
        let stamp = format!("2024-03-01T00:00:0{}+00:00", n);
        db.log_agent_event_at(&sample_log(id, &format!("run {}", n)), &stamp)
            .unwrap();
    }
    let logs = db.get_agent_logs(None, 2).unwrap();
    assert_eq!(logs.len(), 2);
    assert_eq!(logs[0].message, "run 5");
    assert_eq!(logs[1].message, "run 4");
}

#[test]
fn log_read_filters_by_agent_and_bounds_limit() {
    let mut db = Database::new().unwrap();
    let one = db
        .create_agent_at(&sample_agent("one"), "2024-03-01T00:00:00+00:00")
        .unwrap();
    let two = db
        .create_agent_at(&sample_agent("two"), "2024-03-01T00:00:01+00:00")
        .unwrap();
    db.log_agent_event_at(&sample_log(one, "first"), "2024-03-01T00:01:00+00:00")
        .unwrap();
    db.log_agent_event_at(&sample_log(two, "second"), "2024-03-01T00:02:00+00:00")
        .unwrap();
    db.log_agent_event_at(&sample_log(one, "third"), "2024-03-01T00:03:00+00:00")
        .unwrap();

    let logs = db.get_agent_logs(Some(one), 10).unwrap();
    assert_eq!(logs.len(), 2);
    assert_eq!(logs[0].message, "third");
    assert_eq!(logs[1].message, "first");
    assert!(logs.iter().all(|l| l.agent_id == one));

    assert!(db.get_agent_logs(None, 0).unwrap().is_empty());
    assert!(db.get_agent_logs(None, -3).unwrap().is_empty());
}

#[test]
fn log_timestamps_are_assigned_by_the_store() {
    let mut db = Database::new().unwrap();
    let id = db.create_agent(&sample_agent("mailer")).unwrap();
    let mut record = sample_log(id, "ran");
    record.timestamp = "this text must be replaced".to_string();
    db.log_agent_event(&record).unwrap();
    let logs = db.get_agent_logs(Some(id), 10).unwrap();
    assert_eq!(logs.len(), 1);
    assert!(chrono::DateTime::parse_from_rfc3339(&logs[0].timestamp).is_ok());
    assert_eq!(logs[0].id, Some(1));
}

#[test]
fn update_rewrites_row_and_keeps_creation_stamp() {
    let mut db = Database::new().unwrap();
    let id = db
        .create_agent_at(&sample_agent("mailer"), "2024-03-01T00:00:00+00:00")
        .unwrap();
    let mut changed = sample_agent("mailer2");
    changed.schedule = "hourly".to_string();
    changed.timeout = 60000;
    db.update_agent_at(id, &changed, "2024-03-02T00:00:00+00:00")
        .unwrap();

    let row = db.get_agent_by_name("mailer2").unwrap().unwrap();
    assert_eq!(row.id, Some(id));
    assert_eq!(row.schedule, "hourly");
    assert_eq!(row.timeout, 60000);
    assert_eq!(row.created_at, "2024-03-01T00:00:00+00:00");
    assert_eq!(row.updated_at, "2024-03-02T00:00:00+00:00");
    assert!(db.get_agent_by_name("mailer").unwrap().is_none());
}

#[test]
fn update_stamp_never_precedes_creation() {
    let mut db = Database::new().unwrap();
    let id = db
        .create_agent_at(&sample_agent("mailer"), "2024-03-05T00:00:00+00:00")
        .unwrap();
    // an update dated before the creation instant is clamped to it
    db.update_agent_at(id, &sample_agent("mailer"), "2024-03-01T00:00:00+00:00")
        .unwrap();
    let row = db.get_agent_by_name("mailer").unwrap().unwrap();
    assert_eq!(row.created_at, "2024-03-05T00:00:00+00:00");
    assert_eq!(row.updated_at, "2024-03-05T00:00:00+00:00");
}

#[test]
fn update_of_unknown_id_reports_not_found() {
    let mut db = Database::new().unwrap();
    let r = db.update_agent(99, &sample_agent("ghost"));
    assert_eq!(r, Err(StoreError::NotFound));
}

#[test]
fn update_to_a_taken_name_is_rejected() {
    let mut db = Database::new().unwrap();
    db.create_agent_at(&sample_agent("alpha"), "2024-03-01T00:00:00+00:00")
        .unwrap();
    let id = db
        .create_agent_at(&sample_agent("beta"), "2024-03-01T00:00:01+00:00")
        .unwrap();
    let r = db.update_agent_at(id, &sample_agent("alpha"), "2024-03-02T00:00:00+00:00");
    assert_eq!(r, Err(StoreError::ConstraintViolation));
    // renaming a row to its own name is fine
    let r = db.update_agent_at(id, &sample_agent("beta"), "2024-03-02T00:00:00+00:00");
    assert_eq!(r, Ok(()));
}

#[test]
fn delete_removes_row_but_keeps_logs() {
    let mut db = Database::new().unwrap();
    let id = db
        .create_agent_at(&sample_agent("mailer"), "2024-03-01T00:00:00+00:00")
        .unwrap();
    db.log_agent_event_at(&sample_log(id, "ran once"), "2024-03-01T00:01:00+00:00")
        .unwrap();
    db.delete_agent(id).unwrap();
    assert!(db.get_agent_by_name("mailer").unwrap().is_none());
    assert!(db.get_all_agents().unwrap().is_empty());
    // no cascade: the audit trail survives the agent
    let logs = db.get_agent_logs(Some(id), 10).unwrap();
    assert_eq!(logs.len(), 1);
    assert_eq!(logs[0].message, "ran once");
    // deleting again is a no-op
    assert_eq!(db.delete_agent(id), Ok(()));
}

#[test]
fn round_trip_keeps_every_caller_field() {
    let mut db = Database::new().unwrap();
    let written = sample_agent("mailer");
    let id = db.create_agent(&written).unwrap();
    let rows = db.get_all_agents().unwrap();
    assert_eq!(rows.len(), 1);
    let read = &rows[0];
    assert_eq!(read.name, written.name);
    assert_eq!(read.description, written.description);
    assert_eq!(read.role, written.role);
    assert_eq!(read.goal, written.goal);
    assert_eq!(read.tools, written.tools);
    assert_eq!(read.schedule, written.schedule);
    assert_eq!(read.schedule_time, written.schedule_time);
    assert_eq!(read.command, written.command);
    assert_eq!(read.args, written.args);
    assert_eq!(read.timeout, written.timeout);
    assert_eq!(read.config_json, written.config_json);
    assert_eq!(read.is_active, written.is_active);
    // the store-assigned fields differ from the input
    assert_eq!(read.id, Some(id));
    assert!(chrono::DateTime::parse_from_rfc3339(&read.created_at).is_ok());
    assert_eq!(read.created_at, read.updated_at);
}

#[test]
fn duplicate_handler_name_is_rejected() {
    let mut db = Database::new().unwrap();
    db.create_event_handler(&sample_handler("watch", "polling", 10))
        .unwrap();
    let r = db.create_event_handler(&sample_handler("watch", "web", 20));
    assert_eq!(r, Err(StoreError::ConstraintViolation));
    assert_eq!(db.get_all_event_handlers().unwrap().len(), 1);
}

#[test]
fn only_active_handlers_are_listed() {
    let mut db = Database::new().unwrap();
    db.create_event_handler(&sample_handler("on", "polling", 10))
        .unwrap();
    let mut off = sample_handler("off", "polling", 10);
    off.is_active = false;
    db.create_event_handler(&off).unwrap();
    let listed = db.get_all_event_handlers().unwrap();
    assert_eq!(listed.len(), 1);
    assert_eq!(listed[0].name, "on");
}

#[test]
fn handler_delete_and_last_check_mark() {
    let mut db = Database::new().unwrap();
    let id = db
        .create_event_handler(&sample_handler("watch", "polling", 10))
        .unwrap();
    db.update_event_handler_last_check_at(id, "2024-03-01T00:00:00+00:00")
        .unwrap();
    let listed = db.get_all_event_handlers().unwrap();
    assert_eq!(
        listed[0].last_check.as_deref(),
        Some("2024-03-01T00:00:00+00:00")
    );
    // marking an unknown id is a quiet no-op
    assert_eq!(
        db.update_event_handler_last_check_at(999, "2024-03-01T00:00:01+00:00"),
        Ok(())
    );
    db.delete_event_handler(id).unwrap();
    assert!(db.get_all_event_handlers().unwrap().is_empty());
}

//! A dump never leaks a secret: connect with a password, then dump.

use ironrdp_agent::daemon::{Daemon, Step};
use ironrdp_agent::ipc::{Payload, Request, Response};
use ironrdp_agent::logbuf::LogBuffer;
use ironrdp_agent::properties::PropValue;
use ironrdp_propertyset::PropertySet;

fn connect(daemon: &mut Daemon, logs: &mut LogBuffer, properties: PropertySet) -> Response {
    match daemon.handle(Request::Connect(properties), logs) {
        Step::Open { config: _, session } => daemon.start(session, Ok(())),
        Step::Reply(response) => response,
        _ => panic!("expected the session to be opened or refused"),
    }
}

fn request(daemon: &mut Daemon, logs: &mut LogBuffer, request: Request) -> Response {
    match daemon.handle(request, logs) {
        Step::Reply(response) => response,
        _ => panic!("expected an answer"),
    }
}

#[test]
fn dump_properties_redacts_password_end_to_end() {
    let mut logs = LogBuffer::new();
    let mut daemon = Daemon::new("0.1.0".to_owned());

    // Connect carrying a password. The live state is seeded synchronously during `Connect`, so the
    // password is present (and must be redacted) on dump.
    let mut properties = PropertySet::new();
    properties.insert("full address", "127.0.0.1:1");
    properties.insert("username", "alice");
    properties.insert("ClearTextPassword", "hunter2");

    let response = connect(&mut daemon, &mut logs, properties);
    assert_eq!(response, Response::ok(), "connect should be accepted");

    // Dump the live properties and assert the password is redacted.
    let response = request(&mut daemon, &mut logs, Request::DumpProperties { filter: None });

    let Response::Success(Payload::Properties(dump)) = response else {
        panic!("expected a properties payload, got {response:?}");
    };

    let password = dump
        .entries
        .iter()
        .find(|entry| entry.key == "ClearTextPassword")
        .expect("password entry present");
    assert_eq!(
        password.value,
        PropValue::Str("<redacted>".to_owned()),
        "password value must be redacted"
    );

    // Belt and suspenders: the secret must not appear anywhere in the dump.
    for entry in &dump.entries {
        if let PropValue::Str(value) = &entry.value {
            assert_ne!(value.as_str(), "hunter2", "secret leaked in key {}", entry.key);
        }
    }
}

#[test]
fn secrets_of_opened_sessions_are_scrubbed_from_later_lines() {
    let mut logs = LogBuffer::new();
    let mut daemon = Daemon::new("0.1.0".to_owned());
    logs.push("before: hunter2".to_owned());

    let mut properties = PropertySet::new();
    properties.insert("full address", "127.0.0.1:1");
    properties.insert("username", "alice");
    properties.insert("ClearTextPassword", "hunter2");
    assert_eq!(connect(&mut daemon, &mut logs, properties), Response::ok());

    logs.push("alice logs in with hunter2, hunter2".to_owned());
    assert_eq!(
        logs.query(None),
        vec![
            "before: hunter2".to_owned(),
            "alice logs in with <redacted>, <redacted>".to_owned(),
        ]
    );
}

#[test]
fn refused_connections_register_no_secret() {
    let mut logs = LogBuffer::new();
    let mut daemon = Daemon::new("0.1.0".to_owned());
    let mut properties = PropertySet::new();
    properties.insert("ClearTextPassword", "hunter2");
    assert_eq!(
        connect(&mut daemon, &mut logs, properties),
        Response::error("missing required fields: server address, username")
    );
    logs.push("hunter2".to_owned());
    assert_eq!(logs.query(None), vec!["hunter2".to_owned()]);
}

#[test]
fn every_kind_of_secret_is_redacted() {
    let mut logs = LogBuffer::new();
    let mut daemon = Daemon::new("0.1.0".to_owned());
    let mut properties = PropertySet::new();
    properties.insert("full address", "127.0.0.1:1");
    properties.insert("username", "alice");
    properties.insert("ClearTextPassword", "one");
    properties.insert("GatewayPassword", "two");
    properties.insert("gatewaypassword", "three");
    properties.insert("ironrdp_rdcleanpathtoken", "four");
    properties.insert("CLEARTEXTPASSWORD", 5_i64);
    assert_eq!(connect(&mut daemon, &mut logs, properties), Response::ok());

    let response = request(&mut daemon, &mut logs, Request::DumpProperties { filter: None });
    let Response::Success(Payload::Properties(dump)) = response else {
        panic!("expected a properties payload, got {response:?}");
    };
    let shown: Vec<(&str, &PropValue)> = dump
        .entries
        .iter()
        .map(|entry| (entry.key.as_str(), &entry.value))
        .collect();
    let redacted = PropValue::Str("<redacted>".to_owned());
    assert_eq!(
        shown,
        vec![
            ("CLEARTEXTPASSWORD", &redacted),
            ("ClearTextPassword", &redacted),
            ("GatewayPassword", &redacted),
            ("full address", &PropValue::Str("127.0.0.1:1".to_owned())),
            ("gatewaypassword", &redacted),
            ("ironrdp_rdcleanpathtoken", &redacted),
            ("username", &PropValue::Str("alice".to_owned())),
        ]
    );
}

#[test]
fn answers_do_not_depend_on_secrets() {
    let mut answers = Vec::new();
    for password in ["hunter2", "another secret"] {
        let mut logs = LogBuffer::new();
        let mut daemon = Daemon::new("0.1.0".to_owned());
        let mut properties = PropertySet::new();
        properties.insert("full address", "127.0.0.1:1");
        properties.insert("username", "alice");
        properties.insert("ClearTextPassword", password);
        assert_eq!(connect(&mut daemon, &mut logs, properties), Response::ok());
        answers.push((
            request(&mut daemon, &mut logs, Request::DumpProperties { filter: None }),
            request(&mut daemon, &mut logs, Request::Status),
            request(&mut daemon, &mut logs, Request::Screenshot),
        ));
    }
    assert_eq!(answers[0], answers[1]);
}

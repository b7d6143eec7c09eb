use ironrdp_agent::logbuf::{
    add_secrets, scrub, LogBuffer, LogLayer, LogVisitor, DEFAULT_CAPACITY,
};
use ironrdp_propertyset::PropertySet;

fn lines(list: &[&str]) -> Vec<String> {
    list.iter().map(|line| line.to_string()).collect()
}

fn secrets(pairs: &[(&'static str, &str)]) -> PropertySet {
    let mut properties = PropertySet::new();
    for (key, value) in pairs {
        properties.insert(*key, *value);
    }
    properties
}

#[test]
fn a_full_buffer_forgets_its_oldest_line() {
    let mut logs = LogBuffer::with_capacity(2);
    assert_eq!(logs.query(None), lines(&[]));
    for line in ["one", "two", "three"] {
        logs.push(line.to_owned());
    }
    assert_eq!(logs.query(None), lines(&["two", "three"]));
}

#[test]
fn the_default_capacity_is_a_hundred_lines() {
    assert_eq!(DEFAULT_CAPACITY, 100);
    let mut logs = LogBuffer::new();
    for i in 0..105 {
        logs.push(format!("line {i}"));
    }
    let kept = logs.query(None);
    assert_eq!(kept.len(), 100);
    assert_eq!(kept[0], "line 5");
    assert_eq!(kept[99], "line 104");
}

#[test]
fn a_capacity_of_zero_is_one() {
    let mut logs = LogBuffer::with_capacity(0);
    logs.push("one".to_owned());
    logs.push("two".to_owned());
    assert_eq!(logs.query(None), lines(&["two"]));
}

#[test]
fn queries_pick_lines_by_substring() {
    let mut logs = LogBuffer::new();
    for line in ["alpha", "beta", "alphabet", "Alpha"] {
        logs.push(line.to_owned());
    }
    assert_eq!(logs.query(Some("alpha")), lines(&["alpha", "alphabet"]));
    assert_eq!(logs.query(Some("")), lines(&["alpha", "beta", "alphabet", "Alpha"]));
    assert_eq!(logs.query(Some("gamma")), lines(&[]));
}

#[test]
fn only_secrets_are_registered() {
    let mut logs = LogBuffer::new();
    let mut properties = secrets(&[("ClearTextPassword", ""), ("username", "alice")]);
    properties.insert("desktopwidth", 42_i64);
    logs.register_secrets(&properties);
    logs.push("alice 42".to_owned());
    assert_eq!(logs.query(None), lines(&["alice 42"]));
}

#[test]
fn secret_numbers_are_scrubbed() {
    let mut logs = LogBuffer::with_capacity(4);
    let mut properties = PropertySet::new();
    properties.insert("ClearTextPassword", 12345_i64);
    properties.insert("GatewayPassword", -7_i64);
    logs.register_secrets(&properties);
    logs.push("pin 12345".to_owned());
    logs.push("-7 and 7".to_owned());
    assert_eq!(logs.query(None), lines(&["pin <redacted>", "<redacted> and 7"]));
}

#[test]
fn lines_without_a_secret_stay() {
    let known = vec!["hunter2".to_owned(), String::new()];
    assert_eq!(scrub("nothing here", &known), "nothing here");
    assert_eq!(scrub("a hunter2", &known), "a <redacted>");
}

#[test]
fn secrets_are_added_once() {
    let mut known = vec!["one".to_owned()];
    let mut properties = secrets(&[("ClearTextPassword", "one"), ("GatewayPassword", "two")]);
    properties.insert("ironrdp_rdcleanpathtoken", 3_i64);
    add_secrets(&mut known, &properties);
    assert_eq!(known, lines(&["one", "two", "3"]));
}

#[test]
fn secrets_are_replaced_in_turn() {
    let mut logs = LogBuffer::new();
    logs.register_secrets(&secrets(&[("ClearTextPassword", "aa"), ("gatewaypassword", "b")]));
    logs.push("xaaaab".to_owned());
    logs.push("clean".to_owned());
    assert_eq!(logs.query(None), lines(&["x<redacted><redacted><redacted>", "clean"]));
}

#[test]
fn registering_twice_is_registering_once() {
    let properties = secrets(&[("ClearTextPassword", "e")]);
    let mut once = LogBuffer::new();
    once.register_secrets(&properties);
    once.push("hello".to_owned());
    let mut twice = LogBuffer::new();
    twice.register_secrets(&properties);
    twice.register_secrets(&properties);
    twice.push("hello".to_owned());
    assert_eq!(once.query(None), twice.query(None));
    assert_eq!(once.query(None), lines(&["h<redacted>llo"]));
}

#[test]
fn a_secret_that_stands_in_the_marker_cannot_vanish() {
    let mut logs = LogBuffer::new();
    logs.register_secrets(&secrets(&[("ClearTextPassword", "redacted")]));
    logs.push("redacted".to_owned());
    assert_eq!(logs.query(None), lines(&["<redacted>"]));
}

#[test]
fn unicode_secrets_are_scrubbed() {
    let mut logs = LogBuffer::new();
    logs.register_secrets(&secrets(&[("ClearTextPassword", "pässwörd🔑")]));
    logs.push("ü pässwörd🔑 ü".to_owned());
    assert_eq!(logs.query(None), lines(&["ü <redacted> ü"]));
}

#[test]
fn events_become_lines() {
    let mut layer = LogLayer::new(LogBuffer::new());
    let mut visitor = LogVisitor::new();
    visitor.record_debug("message", "Started RDP session".to_owned());
    visitor.record_str("destination", "host:3389");
    visitor.record_debug("size", "(1, 2)".to_owned());
    layer.on_event("INFO", "ironrdp_agent::daemon", &visitor);
    layer.on_event("ERROR", "x", &LogVisitor::new());
    assert_eq!(
        layer.buffer.query(None),
        lines(&[
            " INFO ironrdp_agent::daemon Started RDP session destination=host:3389 size=(1, 2)",
            "ERROR x",
        ])
    );
}

#[test]
fn the_last_message_counts() {
    let mut visitor = LogVisitor::new();
    visitor.record_str("message", "one");
    visitor.record_str("message", "two");
    assert_eq!(visitor.message, Some("two".to_owned()));
    assert_eq!(visitor.fields, "");
}

#[test]
fn events_are_scrubbed() {
    let mut logs = LogBuffer::new();
    logs.register_secrets(&secrets(&[("ClearTextPassword", "hunter2")]));
    let mut layer = LogLayer::new(logs);
    let mut visitor = LogVisitor::new();
    visitor.record_str("password", "hunter2");
    layer.on_event("TRACE", "t", &visitor);
    assert_eq!(layer.buffer.query(None), lines(&["TRACE t password=<redacted>"]));
}

use ironrdp_agent::client::{ClientIdentity, MissingField, PlatformType};
use ironrdp_agent::daemon::{
    connect_as, dump_of, input_sent, open, property_description, refuse, Daemon, OutputEvent,
    Session, Step,
};
use ironrdp_agent::input::{MouseButton, Operation};
use ironrdp_agent::ipc::{
    ConnState, KeyFilter, Payload, PropertyEntry, Request, Response, StatusInfo,
};
use ironrdp_agent::logbuf::LogBuffer;
use ironrdp_agent::properties::PropValue;
use ironrdp_pdu::input::fast_path::{FastPathInputEvent, KeyboardFlags};
use ironrdp_pdu::input::mouse::PointerFlags;
use ironrdp_pdu::input::mouse_x::PointerXFlags;
use ironrdp_pdu::rdp::capability_sets::MajorPlatformType;
use ironrdp_propertyset::PropertySet;

fn properties() -> PropertySet {
    let mut properties = PropertySet::new();
    properties.insert("full address", "example.com:3390");
    properties.insert("username", "alice");
    properties.insert("ClearTextPassword", "hunter2");
    properties
}

fn identity() -> ClientIdentity {
    ClientIdentity {
        build: 10,
        dir: "dir".to_owned(),
        platform: PlatformType::Unix,
        name: "name".to_owned(),
    }
}

fn session() -> Session {
    match connect_as(properties(), &identity(), &mut LogBuffer::new()) {
        Step::Open { config: _, session } => session,
        _ => panic!("expected a session"),
    }
}

fn connected() -> Daemon {
    let mut daemon = Daemon::new("0.1.0".to_owned());
    assert_eq!(daemon.start(session(), Ok(())), Response::ok());
    daemon
}

fn reply(step: Step) -> Response {
    match step {
        Step::Reply(response) => response,
        Step::Open { .. } => panic!("unexpected session"),
        Step::Close(_) => panic!("unexpected close"),
        Step::Send(_) => panic!("unexpected events"),
    }
}

fn events(step: Step) -> Vec<FastPathInputEvent> {
    match step {
        Step::Send(events) => events,
        _ => panic!("expected events"),
    }
}

fn handle(daemon: &mut Daemon, request: Request) -> Step {
    daemon.handle(request, &mut LogBuffer::new())
}

fn status(daemon: &Daemon) -> StatusInfo {
    match daemon.status() {
        Response::Success(Payload::Status(status)) => status,
        response => panic!("expected a status, got {response:?}"),
    }
}

#[test]
fn without_a_session_most_requests_fail() {
    let mut daemon = Daemon::new("0.1.0".to_owned());
    let failure = Response::error("no active session");
    assert_eq!(reply(handle(&mut daemon, Request::Disconnect)), failure);
    assert_eq!(reply(handle(&mut daemon, Request::DumpProperties { filter: None })), failure);
    assert_eq!(reply(handle(&mut daemon, Request::Screenshot)), failure);
    assert_eq!(reply(handle(&mut daemon, Request::MouseMove { x: 1, y: 2 })), failure);
    assert_eq!(
        reply(handle(
            &mut daemon,
            Request::MouseButton { button: MouseButton::Left, pressed: true }
        )),
        failure
    );
    assert_eq!(
        reply(handle(&mut daemon, Request::Wheel { delta: 1, horizontal: false })),
        failure
    );
    assert_eq!(
        reply(handle(&mut daemon, Request::KeyScancode { scancode: 1, pressed: true })),
        failure
    );
    assert_eq!(
        reply(handle(&mut daemon, Request::KeyUnicode { ch: 'a', pressed: true })),
        failure
    );
    assert_eq!(
        reply(handle(&mut daemon, Request::Status)),
        Response::Success(Payload::Status(StatusInfo {
            state: ConnState::NoSession,
            destination: None,
            width: None,
            height: None,
            message: None,
        }))
    );
    daemon.consume_output(0, OutputEvent::Image { width: 1, height: 1 });
    assert_eq!(status(&daemon).state, ConnState::NoSession);
}

#[test]
fn connecting_opens_a_session() {
    let mut logs = LogBuffer::new();
    let mut daemon = Daemon::new("0.1.0".to_owned());
    let Step::Open { config, session } = daemon.handle(Request::Connect(properties()), &mut logs)
    else {
        panic!("expected a session");
    };
    assert_eq!(config.destination().to_string(), "example.com:3390");
    assert_eq!(config.connector().client_build, 10);
    assert_eq!(config.connector().client_dir, "C:\\Windows\\System32\\mstscax.dll");
    assert_eq!(status(&daemon).state, ConnState::NoSession);
    assert_eq!(daemon.start(session, Ok(())), Response::ok());
    assert_eq!(
        status(&daemon),
        StatusInfo {
            state: ConnState::Connecting,
            destination: Some("example.com:3390".to_owned()),
            width: None,
            height: None,
            message: None,
        }
    );
}

#[test]
fn the_identity_reaches_the_configuration() {
    let Step::Open { config, .. } = connect_as(properties(), &identity(), &mut LogBuffer::new())
    else {
        panic!("expected a session");
    };
    assert_eq!(config.connector().client_build, 10);
    assert_eq!(config.connector().client_dir, "dir");
    assert_eq!(config.connector().client_name, "name");
    assert_eq!(
        config.connector().platform,
        MajorPlatformType::UNIX
    );
}

#[test]
fn addresses_without_a_port_get_the_default_one() {
    let mut properties = properties();
    properties.insert("full address", "example.com");
    let Step::Open { session, .. } = connect_as(properties, &identity(), &mut LogBuffer::new())
    else {
        panic!("expected a session");
    };
    assert_eq!(session.destination, "example.com:3389");
}

#[test]
fn missing_fields_are_named() {
    let mut logs = LogBuffer::new();
    assert_eq!(
        reply(connect_as(PropertySet::new(), &identity(), &mut logs)),
        Response::error("missing required fields: server address, username, password")
    );
}

#[test]
fn invalid_properties_are_refused() {
    let mut properties = properties();
    properties.insert("compression level", 9_i64);
    properties.insert("ironrdp_compressionlevel", 9_i64);
    properties.insert("gatewayusagemethod", 1_i64);
    let response = reply(connect_as(properties, &identity(), &mut LogBuffer::new()));
    let Response::Failure(message) = response else {
        panic!("expected a failure, got {response:?}");
    };
    assert!(message.starts_with("invalid configuration: "), "{message}");
}

#[test]
fn configurations_that_cannot_be_built_are_refused() {
    let mut properties = properties();
    properties.insert("ironrdp_colordepth", 24_i64);
    assert_eq!(
        reply(connect_as(properties, &identity(), &mut LogBuffer::new())),
        Response::error("invalid color depth: only 16 and 32 bit color depths are supported")
    );
}

#[test]
fn checks_decide_whether_to_refuse() {
    assert_eq!(
        refuse(Err("bad port".to_owned())),
        Some("invalid configuration: bad port".to_owned())
    );
    assert_eq!(refuse(Ok(vec![])), None);
    assert_eq!(
        refuse(Ok(vec![
            MissingField::ClientBuild,
            MissingField::ClientDir,
            MissingField::Platform,
            MissingField::ClientName,
        ])),
        None
    );
    assert_eq!(
        refuse(Ok(vec![
            MissingField::GatewayUsername,
            MissingField::GatewayPassword,
            MissingField::RDCleanPathToken,
            MissingField::ClientBuild,
        ])),
        Some(
            "missing required fields: gateway username, gateway password, RDCleanPath token"
                .to_owned()
        )
    );
}

#[test]
fn failed_builds_open_nothing() {
    let mut logs = LogBuffer::new();
    assert_eq!(
        reply(open(properties(), Err("no".to_owned()), &mut logs)),
        Response::error("no")
    );
    logs.push("hunter2".to_owned());
    assert_eq!(logs.query(None), vec!["hunter2".to_owned()]);
}

#[test]
fn failed_starts_change_nothing() {
    let mut daemon = connected();
    let id = daemon.session_id;
    daemon.consume_output(id, OutputEvent::Image { width: 3, height: 4 });
    assert_eq!(
        daemon.start(session(), Err("no threads".to_owned())),
        Response::error("failed to spawn session thread: no threads")
    );
    assert_eq!(daemon.session_id, id);
    assert_eq!(status(&daemon).width, Some(3));
}

#[test]
fn frames_set_the_size() {
    let mut daemon = connected();
    let id = daemon.session_id;
    assert_eq!(daemon.screenshot(), Response::error("no frame available yet"));
    daemon.consume_output(id, OutputEvent::ConnectionFailure("later mended".to_owned()));
    daemon.consume_output(id, OutputEvent::Image { width: 1920, height: 1080 });
    assert_eq!(
        status(&daemon),
        StatusInfo {
            state: ConnState::Connected,
            destination: Some("example.com:3390".to_owned()),
            width: Some(1920),
            height: Some(1080),
            message: None,
        }
    );
    assert_eq!(
        daemon.screenshot(),
        Response::Success(Payload::Screenshot { width: 1920, height: 1080 })
    );
    let Response::Success(Payload::Properties(dump)) =
        daemon.dump_properties(Some(&KeyFilter::Prefix("DESKTOP".to_owned())))
    else {
        panic!("expected properties");
    };
    assert_eq!(
        dump.entries,
        vec![
            PropertyEntry {
                key: "desktopheight".to_owned(),
                value: PropValue::Int(1080),
                description: Some("negotiated remote framebuffer height in pixels".to_owned()),
            },
            PropertyEntry {
                key: "desktopwidth".to_owned(),
                value: PropValue::Int(1920),
                description: Some("negotiated remote framebuffer width in pixels".to_owned()),
            },
        ]
    );
}

#[test]
fn refusals_are_told_apart() {
    let mut daemon = Daemon::new("0.1.0".to_owned());
    let none = Response::error("no active session");
    let mut depth = properties();
    depth.insert("ironrdp_colordepth", 24_i64);
    for refused in [PropertySet::new(), depth] {
        assert_ne!(reply(handle(&mut daemon, Request::Connect(refused))), none);
    }
    assert_ne!(daemon.start(session(), Err("no active session".to_owned())), none);
    assert_eq!(status(&daemon).state, ConnState::NoSession);
}

#[test]
fn the_size_agrees_with_the_properties() {
    let mut daemon = connected();
    let id = daemon.session_id;
    for event in [
        OutputEvent::Image { width: 800, height: 600 },
        OutputEvent::Other,
        OutputEvent::Image { width: 1, height: 65535 },
        OutputEvent::ConnectionFailure("gone".to_owned()),
    ] {
        daemon.consume_output(id, event);
        let live = &daemon.session.as_ref().expect("a session").live;
        let (width, height) = live.frame_size.expect("a frame");
        assert_eq!(live.properties.get::<u16>("desktopwidth"), Some(width));
        assert_eq!(live.properties.get::<u16>("desktopheight"), Some(height));
        assert_eq!(live.properties.get::<&str>("username"), Some("alice"));
        assert_eq!(live.properties.iter().count(), 5);
    }
}

#[test]
fn ends_are_reported() {
    let mut daemon = connected();
    let id = daemon.session_id;
    daemon.consume_output(id, OutputEvent::Other);
    assert_eq!(status(&daemon).state, ConnState::Connecting);
    daemon.consume_output(id, OutputEvent::ConnectionFailure("refused".to_owned()));
    assert_eq!(status(&daemon).state, ConnState::Failed);
    assert_eq!(status(&daemon).message, Some("refused".to_owned()));
    daemon.consume_output(id, OutputEvent::Terminated(Ok("UserInitiated".to_owned())));
    assert_eq!(status(&daemon).state, ConnState::Disconnected);
    assert_eq!(status(&daemon).message, Some("UserInitiated".to_owned()));
    daemon.consume_output(id, OutputEvent::Terminated(Err("reset".to_owned())));
    assert_eq!(status(&daemon).state, ConnState::Failed);
    assert_eq!(status(&daemon).message, Some("reset".to_owned()));
}

#[test]
fn statuses_are_scrubbed() {
    let mut secret = properties();
    secret.insert("ClearTextPassword", "example");
    secret.insert("gatewaypassword", 3390_i64);
    let Step::Open { session, .. } = connect_as(secret, &identity(), &mut LogBuffer::new()) else {
        panic!("expected a session");
    };
    let mut daemon = Daemon::new("0.1.0".to_owned());
    assert_eq!(daemon.start(session, Ok(())), Response::ok());
    let id = daemon.session_id;
    daemon.consume_output(
        id,
        OutputEvent::ConnectionFailure("example.com:3390 refused alice/example".to_owned()),
    );
    assert_eq!(
        status(&daemon),
        StatusInfo {
            state: ConnState::Failed,
            destination: Some("<redacted>.com:<redacted>".to_owned()),
            width: None,
            height: None,
            message: Some("<redacted>.com:<redacted> refused alice/<redacted>".to_owned()),
        }
    );
}

#[test]
fn closing_says_so() {
    let mut daemon = connected();
    match handle(&mut daemon, Request::Disconnect) {
        Step::Close(response) => assert_eq!(response, Response::ok()),
        _ => panic!("expected a close"),
    }
    assert_eq!(status(&daemon).state, ConnState::Disconnected);
    assert_eq!(status(&daemon).destination, Some("example.com:3390".to_owned()));
}

#[test]
fn events_of_a_replaced_session_are_not_followed() {
    let mut daemon = connected();
    let first = daemon.session_id;
    assert_eq!(daemon.start(session(), Ok(())), Response::ok());
    assert_ne!(daemon.session_id, first);
    daemon.consume_output(first, OutputEvent::Terminated(Ok("old".to_owned())));
    assert_eq!(status(&daemon).state, ConnState::Connecting);
    let second = daemon.session_id;
    daemon.consume_output(second, OutputEvent::Image { width: 1, height: 2 });
    assert_eq!(status(&daemon).state, ConnState::Connected);
}

#[test]
fn session_numbers_wrap() {
    let mut daemon = Daemon {
        version: "0.1.0".to_owned(),
        session: None,
        session_id: u64::MAX,
    };
    daemon.start(session(), Ok(()));
    assert_eq!(daemon.session_id, 0);
}

#[test]
fn dumps_are_filtered_by_key() {
    let mut properties = properties();
    properties.insert("Username", "bob");
    let keys = |filter: Option<KeyFilter>| -> Vec<String> {
        let dump = dump_of(&properties, filter.as_ref());
        dump.entries.into_iter().map(|entry| entry.key).collect()
    };
    assert_eq!(
        keys(None),
        vec!["ClearTextPassword", "Username", "full address", "username"]
    );
    assert_eq!(
        keys(Some(KeyFilter::Substring("TEXTPASS".to_owned()))),
        vec!["ClearTextPassword"]
    );
    assert_eq!(
        keys(Some(KeyFilter::Substring("name".to_owned()))),
        vec!["Username", "username"]
    );
    assert_eq!(keys(Some(KeyFilter::Prefix("USER".to_owned()))), vec!["Username", "username"]);
    assert_eq!(keys(Some(KeyFilter::Prefix("name".to_owned()))), Vec::<String>::new());
    assert_eq!(keys(Some(KeyFilter::Substring(String::new()))).len(), 4);
}

#[test]
fn descriptions_cover_a_handful_of_keys() {
    assert_eq!(property_description("full address"), Some("RDP target host and port"));
    assert_eq!(property_description("username"), Some("RDP account user name"));
    assert_eq!(
        property_description("desktopwidth"),
        Some("negotiated remote framebuffer width in pixels")
    );
    assert_eq!(
        property_description("desktopheight"),
        Some("negotiated remote framebuffer height in pixels")
    );
    assert_eq!(
        property_description("ironrdp_colordepth"),
        Some("color depth in bits per pixel (16 or 32)")
    );
    assert_eq!(property_description("Username"), None);
    assert_eq!(property_description(""), None);
}

#[test]
fn log_queries_keep_the_last_lines() {
    let daemon = Daemon::new("0.1.0".to_owned());
    let mut logs = LogBuffer::new();
    for line in ["a1", "b1", "a2", "a3"] {
        logs.push(line.to_owned());
    }
    let lines = |substring: Option<&str>, last: Option<u32>| -> Vec<String> {
        match daemon.query_logs(&logs, substring, last) {
            Response::Success(Payload::Logs(lines)) => lines,
            response => panic!("expected lines, got {response:?}"),
        }
    };
    assert_eq!(lines(None, None), vec!["a1", "b1", "a2", "a3"]);
    assert_eq!(lines(None, Some(2)), vec!["a2", "a3"]);
    assert_eq!(lines(Some("a"), Some(2)), vec!["a2", "a3"]);
    assert_eq!(lines(Some("a"), None), vec!["a1", "a2", "a3"]);
    assert_eq!(lines(None, Some(0)), Vec::<String>::new());
    assert_eq!(lines(None, Some(u32::MAX)), vec!["a1", "b1", "a2", "a3"]);
}

#[test]
fn log_queries_go_through_requests() {
    let mut daemon = Daemon::new("0.1.0".to_owned());
    let mut logs = LogBuffer::new();
    logs.push("one".to_owned());
    logs.push("two".to_owned());
    let step = daemon.handle(
        Request::QueryLogs { substring: Some("o".to_owned()), last: Some(1) },
        &mut logs,
    );
    assert_eq!(reply(step), Response::Success(Payload::Logs(vec!["two".to_owned()])));
}

#[test]
fn input_that_changes_nothing_is_not_sent() {
    let mut daemon = connected();
    assert_eq!(
        reply(daemon.input(Operation::MouseButtonReleased(MouseButton::Left))),
        Response::ok()
    );
    assert_eq!(reply(daemon.input(Operation::KeyReleased(0x1e))), Response::ok());
    assert_eq!(reply(daemon.input(Operation::UnicodeKeyReleased('a'))), Response::ok());
    assert_eq!(reply(daemon.input(Operation::MouseMove { x: 0, y: 0 })), Response::ok());
    assert_eq!(events(daemon.input(Operation::MouseMove { x: 5, y: 0 })).len(), 1);
    assert_eq!(reply(daemon.input(Operation::MouseMove { x: 5, y: 0 })), Response::ok());
}

#[test]
fn buttons_are_pressed_and_released_once() {
    for button in [
        MouseButton::Left,
        MouseButton::Middle,
        MouseButton::Right,
        MouseButton::X1,
        MouseButton::X2,
    ] {
        let mut daemon = connected();
        let press = events(handle(&mut daemon, Request::MouseButton { button, pressed: true }));
        assert_eq!(press.len(), 1);
        assert_eq!(
            reply(handle(&mut daemon, Request::MouseButton { button, pressed: true })),
            Response::ok()
        );
        let release = events(handle(&mut daemon, Request::MouseButton { button, pressed: false }));
        assert_eq!(release.len(), 1);
        assert_ne!(press, release);
        assert_eq!(
            reply(handle(&mut daemon, Request::MouseButton { button, pressed: false })),
            Response::ok()
        );
    }
}

#[test]
fn buttons_are_told_apart() {
    let press = |button: MouseButton| -> FastPathInputEvent {
        let mut daemon = connected();
        let mut sent = events(daemon.input(Operation::MouseButtonPressed(button)));
        assert_eq!(sent.len(), 1);
        sent.remove(0)
    };
    let pointer = |event: FastPathInputEvent| match event {
        FastPathInputEvent::MouseEvent(pdu) => pdu.flags,
        event => panic!("unexpected event {event:?}"),
    };
    let extra = |event: FastPathInputEvent| match event {
        FastPathInputEvent::MouseEventEx(pdu) => pdu.flags,
        event => panic!("unexpected event {event:?}"),
    };
    assert_eq!(
        pointer(press(MouseButton::Left)),
        PointerFlags::DOWN | PointerFlags::LEFT_BUTTON
    );
    assert_eq!(
        pointer(press(MouseButton::Middle)),
        PointerFlags::DOWN | PointerFlags::MIDDLE_BUTTON_OR_WHEEL
    );
    assert_eq!(
        pointer(press(MouseButton::Right)),
        PointerFlags::DOWN | PointerFlags::RIGHT_BUTTON
    );
    assert_eq!(extra(press(MouseButton::X1)), PointerXFlags::DOWN | PointerXFlags::BUTTON1);
    assert_eq!(extra(press(MouseButton::X2)), PointerXFlags::DOWN | PointerXFlags::BUTTON2);
}

#[test]
fn requests_become_operations() {
    let mut daemon = connected();
    match &events(handle(&mut daemon, Request::MouseMove { x: 7, y: 9 }))[0] {
        FastPathInputEvent::MouseEvent(pdu) => {
            assert_eq!((pdu.x_position, pdu.y_position), (7, 9));
        }
        event => panic!("unexpected event {event:?}"),
    }
    let vertical = events(handle(&mut daemon, Request::Wheel { delta: -3, horizontal: false }));
    let horizontal = events(handle(&mut daemon, Request::Wheel { delta: -3, horizontal: true }));
    match (&vertical[0], &horizontal[0]) {
        (FastPathInputEvent::MouseEvent(down), FastPathInputEvent::MouseEvent(left)) => {
            assert_eq!(down.number_of_wheel_rotation_units, -3);
            assert_eq!(left.number_of_wheel_rotation_units, -3);
            assert!(down.flags.contains(PointerFlags::VERTICAL_WHEEL));
            assert!(left.flags.contains(PointerFlags::HORIZONTAL_WHEEL));
        }
        _ => panic!("unexpected events"),
    }
    match &events(handle(&mut daemon, Request::KeyScancode { scancode: 0xe01d, pressed: true }))[0]
    {
        FastPathInputEvent::KeyboardEvent(flags, code) => {
            assert_eq!(*code, 0x1d);
            assert_eq!(*flags, KeyboardFlags::EXTENDED);
        }
        event => panic!("unexpected event {event:?}"),
    }
    match &events(handle(&mut daemon, Request::KeyScancode { scancode: 0xe01d, pressed: false }))[0]
    {
        FastPathInputEvent::KeyboardEvent(flags, code) => {
            assert_eq!(*code, 0x1d);
            assert!(flags.contains(KeyboardFlags::RELEASE));
        }
        event => panic!("unexpected event {event:?}"),
    }
    let rocket = events(handle(&mut daemon, Request::KeyUnicode { ch: '🚀', pressed: true }));
    assert_eq!(rocket.len(), 2);
    let up = events(handle(&mut daemon, Request::KeyUnicode { ch: '🚀', pressed: false }));
    assert_eq!(up.len(), 2);
    assert_ne!(rocket, up);
}

#[test]
fn extended_keys_are_keys_of_their_own() {
    let mut daemon = connected();
    events(daemon.input(Operation::KeyPressed(0x1d)));
    assert_eq!(reply(daemon.input(Operation::KeyReleased(0xe01d))), Response::ok());
    assert_eq!(events(daemon.input(Operation::KeyReleased(0x1d))).len(), 1);
    // A key that is down already is released first.
    assert_eq!(events(daemon.input(Operation::KeyPressed(0x1d))).len(), 1);
    assert_eq!(events(daemon.input(Operation::KeyPressed(0x1d))).len(), 2);
}

#[test]
fn undelivered_input_is_an_error() {
    assert_eq!(input_sent(true), Response::ok());
    assert_eq!(input_sent(false), Response::error("session input channel is closed"));
}

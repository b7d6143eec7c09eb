use ironrdp_agent::cli::{
    apply_overrides, build_connect_request, complain, dispatch, endpoint_from_arg, is_user_field,
    parse_scancode, print_payload, print_response, warn_of_skipped, Action, Cli, CliMouseButton,
    Command, ConnectArgs, DumpArgs, Endpoint, QueryLogsArgs, RdpFile,
};
use ironrdp_agent::client::MissingField;
use ironrdp_agent::daemon::refuse;
use ironrdp_agent::input::MouseButton;
use ironrdp_agent::ipc::{
    ConnState, KeyFilter, Payload, PropertyDump, PropertyEntry, Request, Response, StatusInfo,
};
use ironrdp_agent::properties::PropValue;
use ironrdp_agent::text::NumberError;
use ironrdp_propertyset::PropertySet;

fn no_args() -> ConnectArgs {
    ConnectArgs {
        rdp_file: None,
        server: None,
        username: None,
        password: None,
        domain: None,
    }
}

fn full_args() -> ConnectArgs {
    ConnectArgs {
        rdp_file: None,
        server: Some("host:1".to_owned()),
        username: Some("alice".to_owned()),
        password: Some("hunter2".to_owned()),
        domain: Some("corp".to_owned()),
    }
}

fn plan(command: Command) -> Action {
    let cli = Cli {
        help_agent: false,
        endpoint: None,
        command: Some(command),
    };
    dispatch(cli, Endpoint("default".to_owned()))
}

fn sent(command: Command) -> Request {
    match plan(command) {
        Action::Send(endpoint, request) => {
            assert_eq!(endpoint, Endpoint("default".to_owned()));
            request
        }
        action => panic!("expected a request, got {action:?}"),
    }
}

#[test]
fn scancodes_are_decimal_or_hexadecimal() {
    assert_eq!(parse_scancode("30"), Ok(30));
    assert_eq!(parse_scancode("0"), Ok(0));
    assert_eq!(parse_scancode("007"), Ok(7));
    assert_eq!(parse_scancode("+5"), Ok(5));
    assert_eq!(parse_scancode("65535"), Ok(65535));
    assert_eq!(parse_scancode("0x1e"), Ok(0x1e));
    assert_eq!(parse_scancode("0X1E"), Ok(0x1e));
    assert_eq!(parse_scancode("0xE01D"), Ok(0xe01d));
    assert_eq!(parse_scancode("0x+f"), Ok(15));
}

#[test]
fn other_texts_are_no_scancodes() {
    assert_eq!(parse_scancode(""), Err(NumberError::Empty));
    assert_eq!(parse_scancode("0x"), Err(NumberError::Empty));
    assert_eq!(parse_scancode("+"), Err(NumberError::InvalidDigit));
    assert_eq!(parse_scancode("-1"), Err(NumberError::InvalidDigit));
    assert_eq!(parse_scancode("1e"), Err(NumberError::InvalidDigit));
    assert_eq!(parse_scancode("0xg"), Err(NumberError::InvalidDigit));
    assert_eq!(parse_scancode(" 1"), Err(NumberError::InvalidDigit));
    assert_eq!(parse_scancode("65536"), Err(NumberError::PosOverflow));
    assert_eq!(parse_scancode("0x10000"), Err(NumberError::PosOverflow));
    assert_eq!(parse_scancode("99999999999999999999x"), Err(NumberError::PosOverflow));
}

#[test]
fn scancodes_read_as_std_reads_them() {
    for text in [
        "", "+", "-", "0", "+0", "-0", "12", "65535", "65536", "655360", "6553x", "65535x", "x", "٣",
        "1_000", "++1",
    ] {
        assert_eq!(parse_scancode(text).ok(), text.parse::<u16>().ok(), "{text}");
        if let (Err(ours), Err(theirs)) = (parse_scancode(text), text.parse::<u16>()) {
            assert_eq!(ours.describe(), theirs.to_string(), "{text}");
        }
        let hex = format!("0x{text}");
        assert_eq!(parse_scancode(&hex).ok(), u16::from_str_radix(text, 16).ok(), "{hex}");
    }
}

#[test]
fn decimal_scancodes_read_back() {
    for scancode in [0_u16, 9, 10, 99, 100, 12345, 65535] {
        assert_eq!(parse_scancode(&scancode.to_string()), Ok(scancode));
    }
}

#[test]
fn hexadecimal_scancodes_read_back() {
    for scancode in [0_u16, 9, 10, 0x1e, 0xabc, 0xe01d, 0xffff] {
        assert_eq!(parse_scancode(&format!("0x{scancode:x}")), Ok(scancode));
        assert_eq!(parse_scancode(&format!("0X{scancode:x}")), Ok(scancode));
        assert_eq!(parse_scancode(&format!("0x{scancode:X}")), Ok(scancode));
        assert_eq!(parse_scancode(&format!("0X{scancode:X}")), Ok(scancode));
    }
    assert_eq!(parse_scancode("0x00aBcD"), Ok(0xabcd));
}

#[test]
fn the_guide_goes_first() {
    let cli = Cli {
        help_agent: true,
        endpoint: None,
        command: Some(Command::DaemonStart),
    };
    assert!(matches!(dispatch(cli, Endpoint("d".to_owned())), Action::PrintGuide));
}

#[test]
fn no_command_prints_the_help() {
    let cli = Cli {
        help_agent: false,
        endpoint: Some("e".to_owned()),
        command: None,
    };
    assert!(matches!(dispatch(cli, Endpoint("d".to_owned())), Action::PrintHelp));
}

#[test]
fn endpoints_can_be_overridden() {
    assert_eq!(
        endpoint_from_arg(Some("/tmp/s".to_owned()), Endpoint("d".to_owned())),
        Endpoint("/tmp/s".to_owned())
    );
    assert_eq!(endpoint_from_arg(None, Endpoint("d".to_owned())), Endpoint("d".to_owned()));
    let cli = Cli {
        help_agent: false,
        endpoint: Some("e".to_owned()),
        command: Some(Command::DaemonStart),
    };
    match dispatch(cli, Endpoint("d".to_owned())) {
        Action::StartDaemon(endpoint) => assert_eq!(endpoint, Endpoint("e".to_owned())),
        action => panic!("unexpected action {action:?}"),
    }
}

#[test]
fn connecting_is_planned() {
    match plan(Command::Connect(full_args())) {
        Action::Connect(endpoint, args) => {
            assert_eq!(endpoint, Endpoint("default".to_owned()));
            assert_eq!(args.server, Some("host:1".to_owned()));
        }
        action => panic!("unexpected action {action:?}"),
    }
}

#[test]
fn commands_become_requests() {
    assert!(matches!(sent(Command::Disconnect), Request::Disconnect));
    assert!(matches!(sent(Command::Status), Request::Status));
    assert!(matches!(sent(Command::Screenshot), Request::Screenshot));
    assert!(matches!(
        sent(Command::MouseMove { x: 1, y: 2 }),
        Request::MouseMove { x: 1, y: 2 }
    ));
    assert!(matches!(
        sent(Command::Wheel { delta: -1, horizontal: true }),
        Request::Wheel { delta: -1, horizontal: true }
    ));
    assert!(matches!(
        sent(Command::KeyScancode { scancode: 5, pressed: true }),
        Request::KeyScancode { scancode: 5, pressed: true }
    ));
    assert!(matches!(
        sent(Command::KeyUnicode { character: 'a', pressed: false }),
        Request::KeyUnicode { ch: 'a', pressed: false }
    ));
    let request = sent(Command::QueryLogs(QueryLogsArgs {
        substring: Some("x".to_owned()),
        last: Some(3),
    }));
    match request {
        Request::QueryLogs { substring, last } => {
            assert_eq!(substring, Some("x".to_owned()));
            assert_eq!(last, Some(3));
        }
        request => panic!("unexpected request {request:?}"),
    }
}

#[test]
fn buttons_are_named() {
    for (name, expected) in [
        (CliMouseButton::Left, MouseButton::Left),
        (CliMouseButton::Middle, MouseButton::Middle),
        (CliMouseButton::Right, MouseButton::Right),
        (CliMouseButton::X1, MouseButton::X1),
        (CliMouseButton::X2, MouseButton::X2),
    ] {
        assert_eq!(name.into_button(), expected);
        match sent(Command::MouseButton { button: name, pressed: true }) {
            Request::MouseButton { button, pressed } => {
                assert_eq!(button, expected);
                assert!(pressed);
            }
            request => panic!("unexpected request {request:?}"),
        }
    }
}

#[test]
fn a_substring_goes_before_a_prefix() {
    let filter = |filter: Option<&str>, prefix: Option<&str>| -> Option<KeyFilter> {
        let args = DumpArgs {
            filter: filter.map(str::to_owned),
            prefix: prefix.map(str::to_owned),
        };
        match sent(Command::DumpProperties(args)) {
            Request::DumpProperties { filter } => filter,
            request => panic!("unexpected request {request:?}"),
        }
    };
    assert_eq!(filter(None, None), None);
    assert_eq!(filter(Some("a"), None), Some(KeyFilter::Substring("a".to_owned())));
    assert_eq!(filter(None, Some("b")), Some(KeyFilter::Prefix("b".to_owned())));
    assert_eq!(filter(Some("a"), Some("b")), Some(KeyFilter::Substring("a".to_owned())));
}

#[test]
fn connect_requests_carry_the_arguments() {
    let made = build_connect_request(&full_args(), None);
    assert_eq!(made.warnings, Vec::<String>::new());
    let mut expected = PropertySet::new();
    expected.insert("full address", "host:1");
    expected.insert("username", "alice");
    expected.insert("ClearTextPassword", "hunter2");
    expected.insert("domain", "corp");
    match made.request {
        Ok(Request::Connect(properties)) => assert_eq!(properties, expected),
        request => panic!("unexpected request {request:?}"),
    }
}

#[test]
fn overrides_win_over_the_file() {
    let file = RdpFile {
        path: "some.rdp".to_owned(),
        text: "full address:s:file.example\nusername:s:bob\nClearTextPassword:s:pw\n\
               desktopwidth:i:800\nnonsense\naudiomode:i:x\nkey:z:1"
            .to_owned(),
    };
    let mut args = no_args();
    args.username = Some("alice".to_owned());
    let made = build_connect_request(&args, Some(&file));
    assert_eq!(
        made.warnings,
        vec![
            "warning: skipped entry in some.rdp: malformed line at line 5".to_owned(),
            "warning: skipped entry in some.rdp: invalid value at line 6 for key 'audiomode' (type i)"
                .to_owned(),
            "warning: skipped entry in some.rdp: unknown type at line 7 for key 'key' (z)"
                .to_owned(),
        ]
    );
    let mut expected = PropertySet::new();
    expected.insert("full address", "file.example");
    expected.insert("username", "alice");
    expected.insert("ClearTextPassword", "pw");
    expected.insert("desktopwidth", 800_i64);
    match made.request {
        Ok(Request::Connect(properties)) => assert_eq!(properties, expected),
        request => panic!("unexpected request {request:?}"),
    }
}

#[test]
fn overrides_leave_other_properties_alone() {
    let mut properties = PropertySet::new();
    properties.insert("domain", "old");
    properties.insert("other", 1_i64);
    apply_overrides(&mut properties, &no_args());
    assert_eq!(properties.get::<&str>("domain"), Some("old"));
    apply_overrides(&mut properties, &full_args());
    assert_eq!(properties.get::<&str>("domain"), Some("corp"));
    assert_eq!(properties.get::<&str>("full address"), Some("host:1"));
    assert_eq!(properties.get::<&str>("ClearTextPassword"), Some("hunter2"));
    assert_eq!(properties.get::<i64>("other"), Some(1));
}

#[test]
fn misconfigured_connects_fail_fast() {
    match build_connect_request(&no_args(), None).request {
        Err(message) => assert_eq!(
            message,
            "missing required fields: server address, username, password"
        ),
        request => panic!("unexpected request {request:?}"),
    }
    let mut args = full_args();
    args.password = None;
    match build_connect_request(&args, None).request {
        Err(message) => assert_eq!(message, "missing required fields: password"),
        request => panic!("unexpected request {request:?}"),
    }
}

#[test]
fn invalid_configurations_are_not_sent() {
    let file = RdpFile {
        path: "f".to_owned(),
        text: "gatewayusagemethod:i:1".to_owned(),
    };
    match build_connect_request(&full_args(), Some(&file)).request {
        Err(message) => {
            assert!(message.starts_with("validate configuration: "), "{message}");
        }
        request => panic!("unexpected request {request:?}"),
    }
}

#[test]
fn only_user_fields_are_complained_of() {
    assert!(is_user_field(&MissingField::ServerAddress));
    assert!(is_user_field(&MissingField::Username));
    assert!(is_user_field(&MissingField::Password));
    assert!(is_user_field(&MissingField::GatewayUsername));
    assert!(is_user_field(&MissingField::GatewayPassword));
    assert!(!is_user_field(&MissingField::RDCleanPathToken));
    assert!(!is_user_field(&MissingField::ClientBuild));
    assert!(!is_user_field(&MissingField::ClientDir));
    assert!(!is_user_field(&MissingField::Platform));
    assert!(!is_user_field(&MissingField::ClientName));
    assert_eq!(complain(Ok(vec![MissingField::RDCleanPathToken, MissingField::Platform])), None);
    assert_eq!(
        complain(Ok(vec![MissingField::ClientName, MissingField::GatewayPassword])),
        Some("missing required fields: gateway password".to_owned())
    );
    assert_eq!(
        complain(Err("bad".to_owned())),
        Some("validate configuration: bad".to_owned())
    );
}

#[test]
fn what_is_not_sent_would_be_refused() {
    for check in [
        vec![MissingField::Username],
        vec![MissingField::ClientDir, MissingField::GatewayUsername],
    ] {
        assert!(complain(Ok(check.clone())).is_some());
        assert!(refuse(Ok(check)).is_some());
    }
    // The other way round it is not so: the daemon alone asks for the token.
    assert!(complain(Ok(vec![MissingField::RDCleanPathToken])).is_none());
    assert!(refuse(Ok(vec![MissingField::RDCleanPathToken])).is_some());
}

#[test]
fn skipped_lines_are_warned_of() {
    assert_eq!(warn_of_skipped("p", &vec![]), Vec::<String>::new());
    assert_eq!(
        warn_of_skipped("p", &vec!["one".to_owned(), "two".to_owned()]),
        vec![
            "warning: skipped entry in p: one".to_owned(),
            "warning: skipped entry in p: two".to_owned(),
        ]
    );
}

#[test]
fn statuses_are_printed() {
    let none = StatusInfo {
        state: ConnState::NoSession,
        destination: None,
        width: None,
        height: None,
        message: None,
    };
    assert_eq!(print_payload(Payload::Status(none)), vec!["state: NoSession"]);
    let full = StatusInfo {
        state: ConnState::Connected,
        destination: Some("host:3389".to_owned()),
        width: Some(1920),
        height: Some(0),
        message: Some("fine".to_owned()),
    };
    assert_eq!(
        print_payload(Payload::Status(full)),
        vec!["state: Connected", "destination: host:3389", "resolution: 1920x0", "detail: fine"]
    );
    let half = StatusInfo {
        state: ConnState::Failed,
        destination: None,
        width: Some(1),
        height: None,
        message: Some("gone".to_owned()),
    };
    assert_eq!(print_payload(Payload::Status(half)), vec!["state: Failed", "detail: gone"]);
}

#[test]
fn states_are_named() {
    for state in [
        ConnState::NoSession,
        ConnState::Connecting,
        ConnState::Connected,
        ConnState::Disconnected,
        ConnState::Failed,
    ] {
        let status = StatusInfo {
            state,
            destination: None,
            width: None,
            height: None,
            message: None,
        };
        assert_eq!(print_payload(Payload::Status(status)), vec![format!("state: {state:?}")]);
    }
}

#[test]
fn properties_are_printed() {
    let dump = PropertyDump {
        entries: vec![
            PropertyEntry {
                key: "a".to_owned(),
                value: PropValue::Int(i64::MIN),
                description: None,
            },
            PropertyEntry {
                key: "b".to_owned(),
                value: PropValue::Str("x y".to_owned()),
                description: Some("what b is".to_owned()),
            },
            PropertyEntry {
                key: "c".to_owned(),
                value: PropValue::Int(100),
                description: None,
            },
        ],
    };
    assert_eq!(
        print_payload(Payload::Properties(dump)),
        vec!["a = -9223372036854775808", "b = x y  # what b is", "c = 100"]
    );
}

#[test]
fn other_answers_are_printed() {
    assert_eq!(print_payload(Payload::Empty), vec!["ok"]);
    assert_eq!(
        print_payload(Payload::Logs(vec!["one".to_owned(), "two".to_owned()])),
        vec!["one", "two"]
    );
    assert_eq!(
        print_payload(Payload::Screenshot { width: 800, height: 600 }),
        vec!["frame 800x600"]
    );
}

#[test]
fn failures_are_not_printed() {
    assert_eq!(print_response(Response::ok()), Ok(vec!["ok".to_owned()]));
    assert_eq!(print_response(Response::error("no")), Err("no".to_owned()));
}

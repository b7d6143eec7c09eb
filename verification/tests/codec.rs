use ironrdp_agent::input::MouseButton;
use ironrdp_agent::ipc::codec::request::{read_request, request_size, write_request};
use ironrdp_agent::ipc::codec::response::{read_response, response_size, write_response};
use ironrdp_agent::ipc::{
    ConnState, KeyFilter, Payload, PropertyDump, PropertyEntry, Request, Response, StatusInfo,
};
use ironrdp_agent::properties::PropValue;
use ironrdp_agent::wire::WireError;
use ironrdp_core::{ReadCursor, WriteCursor};
use ironrdp_propertyset::PropertySet;

fn request_bytes(request: &Request) -> Vec<u8> {
    let mut buf = vec![0u8; request_size(request)];
    let mut cursor = WriteCursor::new(&mut buf);
    write_request(request, &mut cursor).expect("write");
    let written = cursor.pos();
    assert_eq!(written, buf.len(), "the size must match the bytes written");
    buf
}

fn response_bytes(response: &Response) -> Vec<u8> {
    let mut buf = vec![0u8; response_size(response)];
    let mut cursor = WriteCursor::new(&mut buf);
    write_response(response, &mut cursor).expect("write");
    let written = cursor.pos();
    assert_eq!(written, buf.len(), "the size must match the bytes written");
    buf
}

fn request_reads_back(request: Request) {
    let mut bytes = request_bytes(&request);
    let length = bytes.len();
    bytes.push(0xff);
    let mut cursor = ReadCursor::new(&bytes);
    let read = read_request(&mut cursor).expect("read");
    assert_eq!(format!("{read:?}"), format!("{request:?}"));
    assert_eq!(cursor.pos(), length, "exactly the bytes of the request are consumed");
    for short in 0..length {
        assert!(read_request(&mut ReadCursor::new(&bytes[..short])).is_err());
    }
}

fn response_reads_back(response: Response) {
    let mut bytes = response_bytes(&response);
    let length = bytes.len();
    bytes.push(0xff);
    let mut cursor = ReadCursor::new(&bytes);
    assert_eq!(read_response(&mut cursor), Ok(response));
    assert_eq!(cursor.pos(), length, "exactly the bytes of the response are consumed");
    for short in 0..length {
        assert!(read_response(&mut ReadCursor::new(&bytes[..short])).is_err());
    }
}

fn properties() -> PropertySet {
    let mut properties = PropertySet::new();
    properties.insert("full address", "192.0.2.10:3389");
    properties.insert("desktopwidth", -1_i64);
    properties
}

#[test]
fn requests_read_back() {
    request_reads_back(Request::Connect(properties()));
    request_reads_back(Request::Connect(PropertySet::new()));
    request_reads_back(Request::Disconnect);
    request_reads_back(Request::Status);
    request_reads_back(Request::DumpProperties { filter: None });
    request_reads_back(Request::DumpProperties {
        filter: Some(KeyFilter::Substring("ü".to_owned())),
    });
    request_reads_back(Request::DumpProperties {
        filter: Some(KeyFilter::Prefix(String::new())),
    });
    request_reads_back(Request::QueryLogs { substring: None, last: None });
    request_reads_back(Request::QueryLogs {
        substring: Some("abc".to_owned()),
        last: Some(u32::MAX),
    });
    request_reads_back(Request::Screenshot);
    request_reads_back(Request::MouseMove { x: 0x1234, y: 0xffff });
    request_reads_back(Request::Wheel { delta: i16::MIN, horizontal: true });
    request_reads_back(Request::Wheel { delta: 120, horizontal: false });
    request_reads_back(Request::KeyScancode { scancode: 0xe01d, pressed: true });
    request_reads_back(Request::KeyUnicode { ch: '🚀', pressed: false });
}

#[test]
fn buttons_read_back() {
    for button in [
        MouseButton::Left,
        MouseButton::Middle,
        MouseButton::Right,
        MouseButton::X1,
        MouseButton::X2,
    ] {
        request_reads_back(Request::MouseButton { button, pressed: true });
        request_reads_back(Request::MouseButton { button, pressed: false });
    }
}

#[test]
fn requests_are_laid_out_in_order() {
    assert_eq!(
        request_bytes(&Request::MouseMove { x: 0x0102, y: 0x0304 }),
        vec![6, 2, 1, 4, 3]
    );
    assert_eq!(
        request_bytes(&Request::Wheel { delta: -2, horizontal: true }),
        vec![8, 0xfe, 0xff, 1]
    );
    assert_eq!(
        request_bytes(&Request::QueryLogs { substring: Some("a".to_owned()), last: Some(7) }),
        vec![4, 1, 1, 0, 0, 0, b'a', 1, 7, 0, 0, 0]
    );
    assert_eq!(
        request_bytes(&Request::DumpProperties {
            filter: Some(KeyFilter::Prefix("x".to_owned()))
        }),
        vec![3, 2, 1, 0, 0, 0, b'x']
    );
}

#[test]
fn requests_need_their_size() {
    let mut buf = vec![9u8; 4];
    let mut cursor = WriteCursor::new(&mut buf);
    assert_eq!(
        write_request(&Request::MouseMove { x: 1, y: 2 }, &mut cursor),
        Err(WireError::NotEnoughBytes { received: 4, expected: 5 })
    );
    assert_eq!(cursor.pos(), 0);
    assert_eq!(buf, vec![9u8; 4]);
}

#[test]
fn request_tags_are_known() {
    let unknown = |field: &'static str| WireError::InvalidField { field, reason: "unknown tag" };
    assert_eq!(read_request(&mut ReadCursor::new(&[11])).err(), Some(unknown("request")));
    assert_eq!(read_request(&mut ReadCursor::new(&[3, 3])).err(), Some(unknown("key filter")));
    assert_eq!(read_request(&mut ReadCursor::new(&[7, 5, 1])).err(), Some(unknown("mouse button")));
    assert_eq!(
        read_request(&mut ReadCursor::new(&[])).err(),
        Some(WireError::NotEnoughBytes { received: 0, expected: 1 })
    );
}

#[test]
fn responses_read_back() {
    response_reads_back(Response::ok());
    response_reads_back(Response::error("no active session"));
    response_reads_back(Response::Success(Payload::Screenshot { width: 1920, height: 1080 }));
    response_reads_back(Response::Success(Payload::Logs(vec![])));
    response_reads_back(Response::Success(Payload::Logs(vec![
        "one".to_owned(),
        String::new(),
        "drei ü".to_owned(),
    ])));
    response_reads_back(Response::Success(Payload::Properties(PropertyDump { entries: vec![] })));
    response_reads_back(Response::Success(Payload::Properties(PropertyDump {
        entries: vec![
            PropertyEntry {
                key: "a".to_owned(),
                value: PropValue::Int(i64::MIN),
                description: None,
            },
            PropertyEntry {
                key: String::new(),
                value: PropValue::Str("<redacted>".to_owned()),
                description: Some("what it is".to_owned()),
            },
        ],
    })));
}

#[test]
fn statuses_read_back() {
    for state in [
        ConnState::NoSession,
        ConnState::Connecting,
        ConnState::Connected,
        ConnState::Disconnected,
        ConnState::Failed,
    ] {
        response_reads_back(Response::Success(Payload::Status(StatusInfo {
            state,
            destination: None,
            width: None,
            height: Some(7),
            message: None,
        })));
        response_reads_back(Response::Success(Payload::Status(StatusInfo {
            state,
            destination: Some("host:3389".to_owned()),
            width: Some(1),
            height: None,
            message: Some("detail".to_owned()),
        })));
    }
}

#[test]
fn responses_are_laid_out_in_order() {
    assert_eq!(response_bytes(&Response::ok()), vec![1]);
    assert_eq!(response_bytes(&Response::error("x")), vec![0, 1, 0, 0, 0, b'x']);
    assert_eq!(
        response_bytes(&Response::Success(Payload::Status(StatusInfo {
            state: ConnState::Failed,
            destination: None,
            width: Some(2),
            height: None,
            message: None,
        }))),
        vec![2, 4, 0, 1, 2, 0, 0, 0]
    );
}

#[test]
fn response_tags_are_known() {
    let unknown = |field: &'static str| WireError::InvalidField { field, reason: "unknown tag" };
    assert_eq!(read_response(&mut ReadCursor::new(&[6])), Err(unknown("response")));
    assert_eq!(read_response(&mut ReadCursor::new(&[2, 5])), Err(unknown("connection state")));
}

#[test]
fn responses_need_their_size() {
    let mut buf = vec![9u8; 3];
    let mut cursor = WriteCursor::new(&mut buf);
    assert_eq!(
        write_response(&Response::error("x"), &mut cursor),
        Err(WireError::NotEnoughBytes { received: 3, expected: 6 })
    );
    assert_eq!(cursor.pos(), 0);
    assert_eq!(buf, vec![9u8; 3]);
}

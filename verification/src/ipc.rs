//! The messages between the command line and the daemon.

use ironrdp_propertyset::PropertySet;
use vstd::prelude::*;

use crate::input::MouseButton;
use crate::properties::{property_map, PropValue, PropertyMap, PropertyValue};
use crate::text::{ascii_lower, contains_ignoring_case, contains_text, starts_with_ignoring_case};
use crate::wire::opt_text;

pub mod codec;
pub mod laws;

verus! {

/// What stands in place of a secret.
pub const REDACTED: &'static str = "<redacted>";

/// What a client asks of the daemon.
#[derive(Debug)]
pub enum Request {
    /// Open a session with these properties.
    Connect(PropertySet),
    /// Tear the session down.
    Disconnect,
    /// Report the status of the session.
    Status,
    /// Dump the live properties of the session.
    DumpProperties {
        /// Which keys to show; all of them if there is none.
        filter: Option<KeyFilter>,
    },
    /// Return retained log lines.
    QueryLogs {
        /// What a line must contain.
        substring: Option<String>,
        /// How many of the last lines to return.
        last: Option<u32>,
    },
    /// Report the size of the most recent frame.
    Screenshot,
    /// Move the pointer.
    MouseMove {
        /// Distance from the left edge.
        x: u16,
        /// Distance from the top edge.
        y: u16,
    },
    /// Press or release a mouse button.
    MouseButton {
        /// The button.
        button: MouseButton,
        /// Whether it goes down.
        pressed: bool,
    },
    /// Rotate the mouse wheel.
    Wheel {
        /// By how much.
        delta: i16,
        /// Whether the horizontal wheel is meant.
        horizontal: bool,
    },
    /// Press or release a key, by scancode.
    KeyScancode {
        /// The scancode.
        scancode: u16,
        /// Whether it goes down.
        pressed: bool,
    },
    /// Press or release a key, by character.
    KeyUnicode {
        /// The character.
        ch: char,
        /// Whether it goes down.
        pressed: bool,
    },
}

/// Which property keys to show.
#[derive(Debug, Clone, PartialEq, Eq)]
pub enum KeyFilter {
    /// Those that contain this text, ASCII case aside.
    Substring(String),
    /// Those that start with this text, ASCII case aside.
    Prefix(String),
}

impl KeyFilter {
    /// The filter shows `key`.
    pub open spec fn shows(self, key: Seq<char>) -> bool {
        match self {
            KeyFilter::Substring(needle) => contains_text(ascii_lower(key), ascii_lower(needle@)),
            KeyFilter::Prefix(prefix) => ascii_lower(prefix@).is_prefix_of(ascii_lower(key)),
        }
    }

    /// Whether the filter shows `key`.
    pub fn matches(&self, key: &str) -> (shown: bool)
        ensures
            shown == self.shows(key@),
    {
        match self {
            KeyFilter::Substring(needle) => contains_ignoring_case(key, needle.as_str()),
            KeyFilter::Prefix(prefix) => starts_with_ignoring_case(key, prefix.as_str()),
        }
    }
}

/// Where a session stands.
#[derive(Debug, Clone, Copy, PartialEq, Eq)]
pub enum ConnState {
    /// There is no session.
    NoSession,
    /// The session was started and has shown nothing yet.
    Connecting,
    /// The session has shown a frame.
    Connected,
    /// The session was closed.
    Disconnected,
    /// The session ended in an error.
    Failed,
}

/// The status of the session.
#[derive(Debug, PartialEq, Eq)]
pub struct StatusInfo {
    /// Where the session stands.
    pub state: ConnState,
    /// Host and port of the target.
    pub destination: Option<String>,
    /// Width of the most recent frame.
    pub width: Option<u16>,
    /// Height of the most recent frame.
    pub height: Option<u16>,
    /// Detail on the state.
    pub message: Option<String>,
}

/// One property, as it may be shown.
#[derive(Debug, PartialEq, Eq)]
pub struct PropertyEntry {
    /// The key.
    pub key: String,
    /// The value, or [`REDACTED`].
    pub value: PropValue,
    /// What the property is.
    pub description: Option<String>,
}

/// Properties, as they may be shown.
#[derive(Debug, PartialEq, Eq)]
pub struct PropertyDump {
    /// One entry for each property.
    pub entries: Vec<PropertyEntry>,
}

/// What a request that succeeded returns.
#[derive(Debug, PartialEq, Eq)]
pub enum Payload {
    /// Nothing.
    Empty,
    /// The status of the session.
    Status(StatusInfo),
    /// Properties of the session.
    Properties(PropertyDump),
    /// Log lines.
    Logs(Vec<String>),
    /// The size of the most recent frame.
    Screenshot {
        /// Its width.
        width: u16,
        /// Its height.
        height: u16,
    },
}

/// The answer to a request.
#[derive(Debug, PartialEq, Eq)]
pub enum Response {
    /// The request succeeded.
    Success(Payload),
    /// The request failed, for this reason.
    Failure(String),
}

impl Response {
    /// Success, with nothing to return.
    pub fn ok() -> (response: Self)
        ensures
            response@ == ResponseView::Success(PayloadView::Empty),
    {
        Response::Success(Payload::Empty)
    }

    /// Failure, for this reason.
    pub fn error(message: &str) -> (response: Self)
        ensures
            response@ == ResponseView::Failure(message@),
    {
        Response::Failure(message.to_owned())
    }
}

// ---------------------------------------------------------------------------
// Mathematical values
// ---------------------------------------------------------------------------

/// The mathematical value of a [`KeyFilter`].
#[verifier::ext_equal]
pub enum FilterView {
    Substring(Seq<char>),
    Prefix(Seq<char>),
}

/// The mathematical value of a [`Request`].
#[verifier::ext_equal]
pub enum RequestView {
    Connect(PropertyMap),
    Disconnect,
    Status,
    DumpProperties(Option<FilterView>),
    QueryLogs(Option<Seq<char>>, Option<u32>),
    Screenshot,
    MouseMove(u16, u16),
    MouseButton(MouseButton, bool),
    Wheel(i16, bool),
    KeyScancode(u16, bool),
    KeyUnicode(char, bool),
}

/// The mathematical value of a [`StatusInfo`].
#[verifier::ext_equal]
pub struct StatusView {
    pub state: ConnState,
    pub destination: Option<Seq<char>>,
    pub width: Option<u16>,
    pub height: Option<u16>,
    pub message: Option<Seq<char>>,
}

/// The mathematical value of a [`PropertyEntry`].
#[verifier::ext_equal]
pub struct EntryView {
    pub key: Seq<char>,
    pub value: PropertyValue,
    pub description: Option<Seq<char>>,
}

/// The mathematical value of a [`Payload`].
#[verifier::ext_equal]
pub enum PayloadView {
    Empty,
    Status(StatusView),
    Properties(Seq<EntryView>),
    Logs(Seq<Seq<char>>),
    Screenshot(u16, u16),
}

/// The mathematical value of a [`Response`].
#[verifier::ext_equal]
pub enum ResponseView {
    Success(PayloadView),
    Failure(Seq<char>),
}

/// The mathematical value of a list of texts.
pub open spec fn texts(list: Seq<String>) -> Seq<Seq<char>> {
    list.map_values(|text: String| text@)
}

impl View for KeyFilter {
    type V = FilterView;

    open spec fn view(&self) -> FilterView {
        match *self {
            KeyFilter::Substring(needle) => FilterView::Substring(needle@),
            KeyFilter::Prefix(prefix) => FilterView::Prefix(prefix@),
        }
    }
}

/// The mathematical value of what may be a filter.
pub open spec fn opt_filter(filter: Option<KeyFilter>) -> Option<FilterView> {
    match filter {
        Some(filter) => Some(filter@),
        None => None,
    }
}

impl View for Request {
    type V = RequestView;

    open spec fn view(&self) -> RequestView {
        match *self {
            Request::Connect(properties) => RequestView::Connect(property_map(properties)),
            Request::Disconnect => RequestView::Disconnect,
            Request::Status => RequestView::Status,
            Request::DumpProperties { filter } => RequestView::DumpProperties(opt_filter(filter)),
            Request::QueryLogs { substring, last } => RequestView::QueryLogs(
                opt_text(substring),
                last,
            ),
            Request::Screenshot => RequestView::Screenshot,
            Request::MouseMove { x, y } => RequestView::MouseMove(x, y),
            Request::MouseButton { button, pressed } => RequestView::MouseButton(button, pressed),
            Request::Wheel { delta, horizontal } => RequestView::Wheel(delta, horizontal),
            Request::KeyScancode { scancode, pressed } => RequestView::KeyScancode(
                scancode,
                pressed,
            ),
            Request::KeyUnicode { ch, pressed } => RequestView::KeyUnicode(ch, pressed),
        }
    }
}

impl View for StatusInfo {
    type V = StatusView;

    open spec fn view(&self) -> StatusView {
        StatusView {
            state: self.state,
            destination: opt_text(self.destination),
            width: self.width,
            height: self.height,
            message: opt_text(self.message),
        }
    }
}

impl View for PropertyEntry {
    type V = EntryView;

    open spec fn view(&self) -> EntryView {
        EntryView {
            key: self.key@,
            value: self.value@,
            description: opt_text(self.description),
        }
    }
}

impl View for PropertyDump {
    type V = Seq<EntryView>;

    open spec fn view(&self) -> Seq<EntryView> {
        self.entries@.map_values(|entry: PropertyEntry| entry@)
    }
}

impl View for Payload {
    type V = PayloadView;

    open spec fn view(&self) -> PayloadView {
        match *self {
            Payload::Empty => PayloadView::Empty,
            Payload::Status(status) => PayloadView::Status(status@),
            Payload::Properties(dump) => PayloadView::Properties(dump@),
            Payload::Logs(lines) => PayloadView::Logs(texts(lines@)),
            Payload::Screenshot { width, height } => PayloadView::Screenshot(width, height),
        }
    }
}

impl View for Response {
    type V = ResponseView;

    open spec fn view(&self) -> ResponseView {
        match *self {
            Response::Success(payload) => ResponseView::Success(payload@),
            Response::Failure(message) => ResponseView::Failure(message@),
        }
    }
}

} // verus!

//! The daemon's decisions: one session, the requests on it, and what is known of it.
//!
//! The daemon is a state machine. A request becomes a [`Step`]; where the step asks for something
//! to be done outside, what came of it is handed back.

use ironrdp_cfg::is_secret_key;
use ironrdp_client::config::Config;
use ironrdp_input::Database;
use ironrdp_pdu::input::fast_path::FastPathInputEvent;
use ironrdp_propertyset::PropertySet;
use vstd::prelude::*;

use crate::client::{
    build_config, built_view, check_properties, check_view, client_identity, config_built,
    identifies, missing_fields_message, missing_fields_text, not_supplied, properties_checked,
    ClientIdentity, IdentityView, MissingField,
};
use crate::input::{
    after_operation, apply_operation, at_rest, input_events, input_state, is_sent, InputState,
    Operation,
};
use crate::ipc::{
    texts, ConnState, EntryView, KeyFilter, Payload, PayloadView, PropertyDump, PropertyEntry,
    Request, Response, ResponseView, StatusInfo, StatusView, REDACTED,
};
use crate::logbuf::{
    add_secrets, matching, most_recent, scrub, scrubbed, secrets_in, with_secrets, LogBuffer,
};
use crate::properties::{
    in_key_order, insert_property, is_secret, list_properties,
    listed_properties_are_finite, listing_is_in_key_order, pairs,
    property_map, PropValue, PropertyMap, PropertyPair, PropertyValue,
};
use crate::text::same_text;
use crate::wire::opt_text;

pub mod laws;
pub mod operations;

verus! {

// ---------------------------------------------------------------------------
// A session
// ---------------------------------------------------------------------------

/// What the engine reports of a session.
#[derive(Debug, PartialEq, Eq)]
pub enum OutputEvent {
    /// A frame of this size.
    Image {
        /// Its width.
        width: u16,
        /// Its height.
        height: u16,
    },
    /// The connection could not be made, for this reason.
    ConnectionFailure(String),
    /// The session ended: gracefully, or in an error.
    Terminated(Result<String, String>),
    /// Anything else.
    Other,
}

impl OutputEvent {
    /// The engine can report this: a frame is not empty.
    pub open spec fn is_possible(self) -> bool {
        self matches OutputEvent::Image { width, height } ==> width > 0 && height > 0
    }
}

/// What is known of a session while it lives.
pub struct Live {
    /// Its properties: those it was opened with, and the negotiated size of the desktop.
    pub properties: PropertySet,
    /// Where it stands.
    pub state: ConnState,
    /// Detail on where it stands.
    pub error: Option<String>,
    /// The size of the most recent frame.
    pub frame_size: Option<(u16, u16)>,
}

/// The mathematical value of a [`Live`].
#[verifier::ext_equal]
pub struct LiveView {
    pub properties: PropertyMap,
    pub state: ConnState,
    pub error: Option<Seq<char>>,
    pub frame_size: Option<(u16, u16)>,
}

impl LiveView {
    /// The size of the most recent frame is the negotiated size that the properties give.
    pub open spec fn size_agrees(self) -> bool {
        self.frame_size matches Some(size) ==> {
            &&& self.properties.contains_key("desktopwidth"@)
            &&& self.properties["desktopwidth"@] == PropertyValue::Int(size.0 as i64)
            &&& self.properties.contains_key("desktopheight"@)
            &&& self.properties["desktopheight"@] == PropertyValue::Int(size.1 as i64)
        }
    }

    /// A session never stands where there is none, and the size of its most recent frame is that of
    /// a frame and the one that its properties give.
    pub open spec fn well_formed(self) -> bool {
        &&& self.state !is NoSession
        &&& self.size_agrees()
        &&& self.frame_size matches Some(size) ==> size.0 > 0 && size.1 > 0
    }
}

impl View for Live {
    type V = LiveView;

    open spec fn view(&self) -> LiveView {
        LiveView {
            properties: property_map(self.properties),
            state: self.state,
            error: opt_text(self.error),
            frame_size: self.frame_size,
        }
    }
}

/// A session has just been opened with these properties.
pub open spec fn just_opened(properties: PropertyMap) -> LiveView {
    LiveView { properties, state: ConnState::Connecting, error: None, frame_size: None }
}

/// What is known of a session after an event.
pub open spec fn after_output(live: LiveView, event: OutputEvent) -> LiveView {
    match event {
        OutputEvent::Image { width, height } => LiveView {
            properties: live.properties.insert(
                "desktopwidth"@,
                PropertyValue::Int(width as i64),
            ).insert("desktopheight"@, PropertyValue::Int(height as i64)),
            state: ConnState::Connected,
            error: None,
            frame_size: Some((width, height)),
        },
        OutputEvent::ConnectionFailure(error) => LiveView {
            state: ConnState::Failed,
            error: Some(error@),
            ..live
        },
        OutputEvent::Terminated(Ok(reason)) => LiveView {
            state: ConnState::Disconnected,
            error: Some(reason@),
            ..live
        },
        OutputEvent::Terminated(Err(error)) => LiveView {
            state: ConnState::Failed,
            error: Some(error@),
            ..live
        },
        OutputEvent::Other => live,
    }
}

impl Live {
    /// Follows an event.
    pub fn consume(&mut self, event: OutputEvent)
        ensures
            final(self)@ == after_output(old(self)@, event),
            old(self)@.well_formed() && event.is_possible() ==> final(self)@.well_formed(),
    {
        proof {
            laws::events_keep_what_is_known_coherent(self@, event);
        }
        match event {
            OutputEvent::Image { width, height } => {
                insert_property(
                    &mut self.properties,
                    "desktopwidth".to_owned(),
                    PropValue::Int(width as i64),
                );
                insert_property(
                    &mut self.properties,
                    "desktopheight".to_owned(),
                    PropValue::Int(height as i64),
                );
                self.frame_size = Some((width, height));
                self.state = ConnState::Connected;
                self.error = None;
            },
            OutputEvent::ConnectionFailure(error) => {
                self.state = ConnState::Failed;
                self.error = Some(error);
            },
            OutputEvent::Terminated(Ok(reason)) => {
                self.state = ConnState::Disconnected;
                self.error = Some(reason);
            },
            OutputEvent::Terminated(Err(error)) => {
                self.state = ConnState::Failed;
                self.error = Some(error);
            },
            OutputEvent::Other => {},
        }
    }
}

/// A session.
pub struct Session {
    /// What is pressed.
    pub input_db: Database,
    /// Host and port of its target.
    pub destination: String,
    /// What is known of it.
    pub live: Live,
}

/// The mathematical value of a [`Session`].
#[verifier::ext_equal]
pub struct SessionView {
    pub input: InputState,
    pub destination: Seq<char>,
    pub live: LiveView,
}

impl View for Session {
    type V = SessionView;

    open spec fn view(&self) -> SessionView {
        SessionView {
            input: input_state(self.input_db),
            destination: self.destination@,
            live: self.live@,
        }
    }
}

/// The mathematical value of what may be a session.
pub open spec fn opt_session(session: Option<Session>) -> Option<SessionView> {
    match session {
        Some(session) => Some(session@),
        None => None,
    }
}

// ---------------------------------------------------------------------------
// Steps
// ---------------------------------------------------------------------------

/// What is to be done about a request.
pub enum Step {
    /// Send this answer.
    Reply(Response),
    /// Start the engine with `config`, and hand `session` to [`Daemon::start`] with what came of
    /// it.
    Open {
        /// What the engine connects to, and how.
        config: Config,
        /// The session to be.
        session: Session,
    },
    /// Ask the engine to close the session, and send this answer whatever comes of it.
    Close(Response),
    /// Send these events to the engine, and answer as [`input_sent`] says.
    Send(Vec<FastPathInputEvent>),
}

/// The mathematical value of a [`Step`].
#[verifier::ext_equal]
pub enum StepView {
    Reply(ResponseView),
    Open(Config, SessionView),
    Close(ResponseView),
    Send(Seq<FastPathInputEvent>),
}

impl View for Step {
    type V = StepView;

    open spec fn view(&self) -> StepView {
        match *self {
            Step::Reply(response) => StepView::Reply(response@),
            Step::Open { config, session } => StepView::Open(config, session@),
            Step::Close(response) => StepView::Close(response@),
            Step::Send(events) => StepView::Send(events@),
        }
    }
}

/// The answer to a request that needs a session when there is none.
pub open spec fn no_session() -> ResponseView {
    ResponseView::Failure("no active session"@)
}

/// Success, with nothing to return.
pub open spec fn done() -> ResponseView {
    ResponseView::Success(PayloadView::Empty)
}

// ---------------------------------------------------------------------------
// Opening a session
// ---------------------------------------------------------------------------

/// Why properties that were checked so cannot be connected with.
pub open spec fn refusal(check: Result<Seq<MissingField>, Seq<char>>) -> Option<Seq<char>> {
    match check {
        Err(error) => Some("invalid configuration: "@ + error),
        Ok(fields) => if not_supplied(fields).len() > 0 {
            Some(missing_fields_text(not_supplied(fields)))
        } else {
            None
        },
    }
}

/// The step that follows when properties that were not refused are built into this.
pub open spec fn opening(
    properties: PropertyMap,
    built: Result<(Config, Seq<char>), Seq<char>>,
) -> StepView {
    match built {
        Err(error) => StepView::Reply(ResponseView::Failure(error)),
        Ok(built) => StepView::Open(
            built.0,
            SessionView { input: at_rest(), destination: built.1, live: just_opened(properties) },
        ),
    }
}

/// The step that follows a request to connect.
pub open spec fn connecting(properties: PropertyMap, identity: IdentityView) -> StepView {
    match refusal(properties_checked(properties)) {
        Some(error) => StepView::Reply(ResponseView::Failure(error)),
        None => opening(properties, config_built(properties, identity)),
    }
}

/// The secrets that are registered after a step: opening a session registers those among its
/// properties.
pub open spec fn secrets_after(
    secrets: Seq<Seq<char>>,
    properties: PropertyMap,
    step: StepView,
) -> Seq<Seq<char>> {
    if step is Open {
        with_secrets(secrets, in_key_order(properties))
    } else {
        secrets
    }
}

/// Whether properties can be connected with, from what their check gave.
pub fn refuse(check: Result<Vec<MissingField>, String>) -> (error: Option<String>)
    ensures
        opt_text(error) == refusal(check_view(check)),
{
    match check {
        Err(error) => {
            let mut message: String = "invalid configuration: ".to_owned();
            message.append(error.as_str());
            Some(message)
        },
        Ok(fields) => {
            let mut missing: Vec<MissingField> = Vec::new();
            let ghost kept = |field: MissingField| !field.is_identity();
            assert(fields@.take(0) =~= Seq::empty());
            assert(missing@ =~= fields@.take(0).filter(kept)) by {
                reveal(Seq::filter);
            }
            for i in 0..fields.len()
                invariant
                    kept == (|field: MissingField| !field.is_identity()),
                    missing@ == fields@.take(i as int).filter(kept),
            {
                assert(fields@.take(i + 1).drop_last() =~= fields@.take(i as int));
                proof {
                    reveal(Seq::filter);
                }
                if !fields[i].is_supplied() {
                    missing.push(fields[i]);
                }
            }
            assert(fields@.take(fields@.len() as int) =~= fields@);
            if missing.len() > 0 {
                Some(missing_fields_message(&missing))
            } else {
                None
            }
        },
    }
}

/// The step that follows when properties that were not refused are built into this. The secrets
/// among them are registered, so that they never appear verbatim in retained log lines.
pub fn open(
    properties: PropertySet,
    built: Result<(Config, String), String>,
    logs: &mut LogBuffer,
) -> (step: Step)
    requires
        old(logs).well_formed(),
    ensures
        step@ == opening(property_map(properties), built_view(built)),
        step@ is Open ==> property_map(properties).dom().finite(),
        final(logs).well_formed(),
        final(logs).capacity() == old(logs).capacity(),
        final(logs).lines() == old(logs).lines(),
        final(logs).secrets() == secrets_after(
            old(logs).secrets(),
            property_map(properties),
            step@,
        ),
{
    match built {
        Err(error) => Step::Reply(Response::Failure(error)),
        Ok(built) => {
            let (config, destination) = built;
            logs.register_secrets(&properties);
            let live = Live {
                properties,
                state: ConnState::Connecting,
                error: None,
                frame_size: None,
            };
            Step::Open { config, session: Session { input_db: Database::new(), destination, live } }
        },
    }
}

/// What is said when connecting fails is not what is said when there is no session.
proof fn lemma_refusals_are_told_apart(check: Result<Seq<MissingField>, Seq<char>>)
    ensures
        refusal(check) != Some("no active session"@),
        "invalid color depth: only 16 and 32 bit color depths are supported"@
            != "no active session"@,
        forall|error: Seq<char>|
            #[trigger] ("failed to spawn session thread: "@ + error) != "no active session"@,
{
    reveal_strlit("no active session");
    reveal_strlit("invalid configuration: ");
    reveal_strlit("missing required fields: ");
    reveal_strlit("invalid color depth: only 16 and 32 bit color depths are supported");
    reveal_strlit("failed to spawn session thread: ");
    assert("no active session"@[0] == 'n');
    if let Some(message) = refusal(check) {
        assert(message[0] != 'n');
    }
    assert forall|error: Seq<char>| #[trigger]
        ("failed to spawn session thread: "@ + error) != "no active session"@ by {
        assert(("failed to spawn session thread: "@ + error)[0] == 'f');
    }
}

/// The step that follows a request to connect from a client that gives this identity.
pub fn connect_as(
    properties: PropertySet,
    identity: &ClientIdentity,
    logs: &mut LogBuffer,
) -> (step: Step)
    requires
        old(logs).well_formed(),
    ensures
        step@ == connecting(property_map(properties), identity@),
        step@ != StepView::Reply(no_session()),
        final(logs).well_formed(),
        final(logs).capacity() == old(logs).capacity(),
        final(logs).lines() == old(logs).lines(),
        final(logs).secrets() == secrets_after(
            old(logs).secrets(),
            property_map(properties),
            step@,
        ),
{
    proof {
        lemma_refusals_are_told_apart(properties_checked(property_map(properties)));
    }
    match refuse(check_properties(&properties)) {
        Some(error) => Step::Reply(Response::Failure(error)),
        None => {
            let built = build_config(&properties, identity);
            open(properties, built, logs)
        },
    }
}

// ---------------------------------------------------------------------------
// Dumping properties
// ---------------------------------------------------------------------------

/// What a property is, for a handful of properties.
pub open spec fn description_of(key: Seq<char>) -> Option<Seq<char>> {
    if key == "full address"@ {
        Some("RDP target host and port"@)
    } else if key == "username"@ {
        Some("RDP account user name"@)
    } else if key == "desktopwidth"@ {
        Some("negotiated remote framebuffer width in pixels"@)
    } else if key == "desktopheight"@ {
        Some("negotiated remote framebuffer height in pixels"@)
    } else if key == "ironrdp_colordepth"@ {
        Some("color depth in bits per pixel (16 or 32)"@)
    } else {
        None
    }
}

/// What a property is, for a handful of properties.
pub fn property_description(key: &str) -> (description: Option<&'static str>)
    ensures
        description_of(key@) == match description {
            Some(description) => Some(description@),
            None => None,
        },
{
    if same_text(key, "full address") {
        Some("RDP target host and port")
    } else if same_text(key, "username") {
        Some("RDP account user name")
    } else if same_text(key, "desktopwidth") {
        Some("negotiated remote framebuffer width in pixels")
    } else if same_text(key, "desktopheight") {
        Some("negotiated remote framebuffer height in pixels")
    } else if same_text(key, "ironrdp_colordepth") {
        Some("color depth in bits per pixel (16 or 32)")
    } else {
        None
    }
}

/// A filter, or the lack of one, shows `key`.
pub open spec fn shown(filter: Option<KeyFilter>, key: Seq<char>) -> bool {
    match filter {
        Some(filter) => filter.shows(key),
        None => true,
    }
}

/// A property as it may be shown: the value of a secret is not.
pub open spec fn entry_of(pair: PropertyPair) -> EntryView {
    EntryView {
        key: pair.0,
        value: if is_secret(pair.0) {
            PropertyValue::Str(REDACTED@)
        } else {
            pair.1
        },
        description: description_of(pair.0),
    }
}

/// The properties whose keys are shown, in their order, as they may be shown.
pub open spec fn dump(entries: Seq<PropertyPair>, filter: Option<KeyFilter>) -> Seq<EntryView> {
    entries.filter(|pair: PropertyPair| shown(filter, pair.0)).map_values(
        |pair: PropertyPair| entry_of(pair),
    )
}

/// The properties whose keys are shown, in key order, as they may be shown.
pub fn dump_of(properties: &PropertySet, filter: Option<&KeyFilter>) -> (dumped: PropertyDump)
    ensures
        dumped@ == dump(
            in_key_order(property_map(*properties)),
            match filter {
                Some(filter) => Some(*filter),
                None => None,
            },
        ),
        property_map(*properties).dom().finite(),
{
    let listed: Vec<(String, PropValue)> = list_properties(properties);
    let ghost all = pairs(listed@);
    let ghost wanted = match filter {
        Some(filter) => Some(*filter),
        None => None,
    };
    proof {
        listing_is_in_key_order(property_map(*properties), all);
        listed_properties_are_finite(property_map(*properties), all);
    }
    let mut dumped = PropertyDump { entries: Vec::new() };
    assert(all.take(0) =~= Seq::empty());
    assert(dumped@ =~= dump(all.take(0), wanted)) by {
        reveal(Seq::filter);
    }
    for i in 0..listed.len()
        invariant
            all == pairs(listed@),
            wanted == match filter {
                Some(filter) => Some(*filter),
                None => None::<KeyFilter>,
            },
            dumped@ == dump(all.take(i as int), wanted),
    {
        let ghost before = dumped@;
        let ghost pair = (listed@[i as int].0@, listed@[i as int].1@);
        assert(all.take(i + 1).drop_last() =~= all.take(i as int));
        assert(all.take(i + 1).last() == pair);
        proof {
            reveal(Seq::filter);
        }
        let key: &str = listed[i].0.as_str();
        let is_shown: bool = match filter {
            Some(filter) => filter.matches(key),
            None => true,
        };
        if is_shown {
            let value: PropValue = if is_secret_key(key) {
                PropValue::Str(REDACTED.to_owned())
            } else {
                match &listed[i].1 {
                    PropValue::Int(value) => PropValue::Int(*value),
                    PropValue::Str(value) => PropValue::Str(value.clone()),
                }
            };
            let description: Option<String> = match property_description(key) {
                Some(description) => Some(description.to_owned()),
                None => None,
            };
            let entry = PropertyEntry { key: key.to_owned(), value, description };
            assert(entry@ == entry_of(pair));
            dumped.entries.push(entry);
            assert(dumped@ =~= before.push(entry_of(pair)));
        }
        assert(dumped@ =~= dump(all.take(i + 1), wanted));
    }
    assert(all.take(all.len() as int) =~= all);
    dumped
}

// ---------------------------------------------------------------------------
// Answers
// ---------------------------------------------------------------------------

/// The status of what may be a session: its texts are scrubbed of the secrets that its properties
/// hold.
pub open spec fn status_of(session: Option<SessionView>) -> StatusView {
    match session {
        None => StatusView {
            state: ConnState::NoSession,
            destination: None,
            width: None,
            height: None,
            message: None,
        },
        Some(session) => StatusView {
            state: session.live.state,
            destination: Some(
                scrubbed(session.destination, secrets_in(session.live.properties)),
            ),
            width: match session.live.frame_size {
                Some(size) => Some(size.0),
                None => None,
            },
            height: match session.live.frame_size {
                Some(size) => Some(size.1),
                None => None,
            },
            message: match session.live.error {
                Some(error) => Some(scrubbed(error, secrets_in(session.live.properties))),
                None => None,
            },
        },
    }
}

/// The answer to a request for the properties of what may be a session.
pub open spec fn dump_answer(
    session: Option<SessionView>,
    filter: Option<KeyFilter>,
) -> ResponseView {
    match session {
        None => no_session(),
        Some(session) => ResponseView::Success(
            PayloadView::Properties(dump(in_key_order(session.live.properties), filter)),
        ),
    }
}

/// The answer to a request for log lines: those that match, and the last of them if only so many
/// are wanted.
pub open spec fn logs_answer(
    lines: Seq<Seq<char>>,
    substring: Option<Seq<char>>,
    last: Option<u32>,
) -> ResponseView {
    ResponseView::Success(
        PayloadView::Logs(
            match last {
                Some(last) => most_recent(matching(lines, substring), last as nat),
                None => matching(lines, substring),
            },
        ),
    )
}

/// The answer to a request for the size of the most recent frame.
pub open spec fn screenshot_answer(session: Option<SessionView>) -> ResponseView {
    match session {
        None => no_session(),
        Some(session) => match session.live.frame_size {
            Some(size) => ResponseView::Success(PayloadView::Screenshot(size.0, size.1)),
            None => ResponseView::Failure("no frame available yet"@),
        },
    }
}

/// What may be a session after a request to close it, and the step that follows.
pub open spec fn closing(session: Option<SessionView>) -> (Option<SessionView>, StepView) {
    match session {
        None => (None, StepView::Reply(no_session())),
        Some(session) => (
            Some(
                SessionView {
                    live: LiveView { state: ConnState::Disconnected, ..session.live },
                    ..session
                },
            ),
            StepView::Close(done()),
        ),
    }
}

/// What may be a session after an operation, and the step that follows.
pub open spec fn operated(session: Option<SessionView>, operation: Operation) -> (
    Option<SessionView>,
    StepView,
) {
    match session {
        None => (None, StepView::Reply(no_session())),
        Some(session) => (
            Some(SessionView { input: after_operation(session.input, operation), ..session }),
            if is_sent(session.input, operation) {
                StepView::Send(input_events(session.input, operation))
            } else {
                StepView::Reply(done())
            },
        ),
    }
}

/// The operation that a request asks for, if it asks for one.
pub open spec fn operation_of(request: Request) -> Option<Operation> {
    match request {
        Request::MouseMove { x, y } => Some(Operation::MouseMove { x, y }),
        Request::MouseButton { button, pressed } => Some(
            if pressed {
                Operation::MouseButtonPressed(button)
            } else {
                Operation::MouseButtonReleased(button)
            },
        ),
        Request::Wheel { delta, horizontal } => Some(
            Operation::WheelRotations { is_vertical: !horizontal, rotation_units: delta },
        ),
        Request::KeyScancode { scancode, pressed } => Some(
            if pressed {
                Operation::KeyPressed(scancode)
            } else {
                Operation::KeyReleased(scancode)
            },
        ),
        Request::KeyUnicode { ch, pressed } => Some(
            if pressed {
                Operation::UnicodeKeyPressed(ch)
            } else {
                Operation::UnicodeKeyReleased(ch)
            },
        ),
        _ => None,
    }
}

/// What may be a session after any request but one to connect, and the step that follows, when
/// `lines` are the retained log lines.
pub open spec fn answered(
    session: Option<SessionView>,
    lines: Seq<Seq<char>>,
    request: Request,
) -> (Option<SessionView>, StepView) {
    match request {
        Request::Disconnect => closing(session),
        Request::Status => (
            session,
            StepView::Reply(ResponseView::Success(PayloadView::Status(status_of(session)))),
        ),
        Request::DumpProperties { filter } => (
            session,
            StepView::Reply(dump_answer(session, filter)),
        ),
        Request::QueryLogs { substring, last } => (
            session,
            StepView::Reply(logs_answer(lines, opt_text(substring), last)),
        ),
        Request::Screenshot => (session, StepView::Reply(screenshot_answer(session))),
        _ => operated(session, operation_of(request)->0),
    }
}

/// The answer to an operation whose events were, or were not, delivered to the engine.
pub open spec fn delivery_answer(delivered: bool) -> ResponseView {
    if delivered {
        done()
    } else {
        ResponseView::Failure("session input channel is closed"@)
    }
}

/// The answer to an operation whose events were, or were not, delivered to the engine.
pub fn input_sent(delivered: bool) -> (response: Response)
    ensures
        response@ == delivery_answer(delivered),
{
    if delivered {
        Response::ok()
    } else {
        Response::error("session input channel is closed")
    }
}

// ---------------------------------------------------------------------------
// The daemon
// ---------------------------------------------------------------------------

/// The daemon's state: the (single) current session.
pub struct Daemon {
    /// Its own version.
    pub version: String,
    /// The current session.
    pub session: Option<Session>,
    /// Which session is the current one.
    pub session_id: u64,
}

/// The mathematical value of a [`Daemon`].
#[verifier::ext_equal]
pub struct DaemonView {
    pub version: Seq<char>,
    pub session: Option<SessionView>,
    pub session_id: u64,
}

impl DaemonView {
    /// What is known of the session, if there is one, is coherent.
    pub open spec fn well_formed(self) -> bool {
        self.session matches Some(session) ==> session.live.well_formed()
    }
}

impl View for Daemon {
    type V = DaemonView;

    open spec fn view(&self) -> DaemonView {
        DaemonView {
            version: self.version@,
            session: opt_session(self.session),
            session_id: self.session_id,
        }
    }
}

/// Which session follows session `id`.
pub open spec fn next_id(id: u64) -> u64 {
    if id == u64::MAX {
        0
    } else {
        (id + 1) as u64
    }
}

/// The daemon after `session` was to be started, and the answer.
pub open spec fn started(
    daemon: DaemonView,
    session: SessionView,
    spawned: Result<(), Seq<char>>,
) -> (DaemonView, ResponseView) {
    match spawned {
        Ok(()) => (
            DaemonView {
                session: Some(session),
                session_id: next_id(daemon.session_id),
                ..daemon
            },
            done(),
        ),
        Err(error) => (
            daemon,
            ResponseView::Failure("failed to spawn session thread: "@ + error),
        ),
    }
}

/// The daemon after an event of session `id`: one that is not the current session is not followed.
pub open spec fn followed(daemon: DaemonView, id: u64, event: OutputEvent) -> DaemonView {
    match daemon.session {
        Some(session) => if id == daemon.session_id {
            DaemonView {
                session: Some(SessionView { live: after_output(session.live, event), ..session }),
                ..daemon
            }
        } else {
            daemon
        },
        None => daemon,
    }
}

impl Daemon {
    /// A daemon of this version, without a session.
    pub fn new(version: String) -> (daemon: Self)
        ensures
            daemon@ == (DaemonView { version: version@, session: None, session_id: 0 }),
            daemon@.well_formed(),
    {
        Daemon { version, session: None, session_id: 0 }
    }

    /// The step that follows a request.
    pub fn handle(&mut self, request: Request, logs: &mut LogBuffer) -> (step: Step)
        requires
            old(logs).well_formed(),
        ensures
            final(self).version == old(self).version,
            final(self).session_id == old(self).session_id,
            old(self)@.well_formed() ==> final(self)@.well_formed(),
            step@ matches StepView::Open(_, session) ==> session.live.well_formed(),
            old(self)@.session is None ==> (step@ == StepView::Reply(no_session()) <==> !(
            request is Connect || request is Status || request is QueryLogs)),
            final(logs).well_formed(),
            final(logs).capacity() == old(logs).capacity(),
            final(logs).lines() == old(logs).lines(),
            match request {
                Request::Connect(properties) => {
                    &&& final(self)@ == old(self)@
                    &&& exists|identity: IdentityView| #[trigger]
                        identifies(identity, old(self)@.version) && step@ == connecting(
                            property_map(properties),
                            identity,
                        )
                    &&& final(logs).secrets() == secrets_after(
                        old(logs).secrets(),
                        property_map(properties),
                        step@,
                    )
                },
                _ => {
                    &&& (final(self)@.session, step@) == answered(
                        old(self)@.session,
                        old(logs).lines(),
                        request,
                    )
                    &&& final(logs).secrets() == old(logs).secrets()
                },
            },
    {
        match request {
            Request::Connect(properties) => self.connect(properties, logs),
            Request::Disconnect => self.disconnect(),
            Request::Status => Step::Reply(self.status()),
            Request::DumpProperties { filter } => Step::Reply(
                self.dump_properties(filter.as_ref()),
            ),
            Request::QueryLogs { substring, last } => {
                let substring: Option<&str> = match &substring {
                    Some(substring) => Some(substring.as_str()),
                    None => None,
                };
                Step::Reply(self.query_logs(logs, substring, last))
            },
            Request::Screenshot => Step::Reply(self.screenshot()),
            Request::MouseMove { x, y } => self.input(Operation::MouseMove { x, y }),
            Request::MouseButton { button, pressed } => self.input(
                if pressed {
                    Operation::MouseButtonPressed(button)
                } else {
                    Operation::MouseButtonReleased(button)
                },
            ),
            Request::Wheel { delta, horizontal } => self.input(
                Operation::WheelRotations { is_vertical: !horizontal, rotation_units: delta },
            ),
            Request::KeyScancode { scancode, pressed } => self.input(
                if pressed {
                    Operation::KeyPressed(scancode)
                } else {
                    Operation::KeyReleased(scancode)
                },
            ),
            Request::KeyUnicode { ch, pressed } => self.input(
                if pressed {
                    Operation::UnicodeKeyPressed(ch)
                } else {
                    Operation::UnicodeKeyReleased(ch)
                },
            ),
        }
    }

    /// The step that follows a request to connect, whatever this machine is called.
    pub fn connect(&self, properties: PropertySet, logs: &mut LogBuffer) -> (step: Step)
        requires
            old(logs).well_formed(),
        ensures
            exists|identity: IdentityView| #[trigger]
                identifies(identity, self@.version) && step@ == connecting(
                    property_map(properties),
                    identity,
                ),
            step@ != StepView::Reply(no_session()),
            final(logs).well_formed(),
            final(logs).capacity() == old(logs).capacity(),
            final(logs).lines() == old(logs).lines(),
            final(logs).secrets() == secrets_after(
                old(logs).secrets(),
                property_map(properties),
                step@,
            ),
    {
        let identity: ClientIdentity = client_identity(self.version.as_str());
        let step: Step = connect_as(properties, &identity, logs);
        assert(identifies(identity@, self@.version));
        step
    }

    /// Makes `session` the current one if the engine was started, and answers the request to
    /// connect.
    pub fn start(&mut self, session: Session, spawned: Result<(), String>) -> (response: Response)
        ensures
            (final(self)@, response@) == started(
                old(self)@,
                session@,
                match spawned {
                    Ok(()) => Ok(()),
                    Err(error) => Err(error@),
                },
            ),
            old(self)@.well_formed() && session@.live.well_formed() ==> final(self)@.well_formed(),
            response@ != no_session(),
    {
        match spawned {
            Err(error) => {
                let mut message: String = "failed to spawn session thread: ".to_owned();
                message.append(error.as_str());
                proof {
                    lemma_refusals_are_told_apart(Err(error@));
                }
                Response::Failure(message)
            },
            Ok(()) => {
                self.session_id = self.session_id.wrapping_add(1);
                self.session = Some(session);
                Response::ok()
            },
        }
    }

    /// The step that follows a request to close the session.
    pub fn disconnect(&mut self) -> (step: Step)
        ensures
            final(self).version == old(self).version,
            final(self).session_id == old(self).session_id,
            (final(self)@.session, step@) == closing(old(self)@.session),
            old(self)@.well_formed() ==> final(self)@.well_formed(),
    {
        match &mut self.session {
            None => Step::Reply(Response::error("no active session")),
            Some(session) => {
                session.live.state = ConnState::Disconnected;
                Step::Close(Response::ok())
            },
        }
    }

    /// The answer to a request for the status of the session. Its texts are scrubbed of the secrets
    /// among the session's properties.
    pub fn status(&self) -> (response: Response)
        ensures
            response@ == ResponseView::Success(PayloadView::Status(status_of(self@.session))),
            self@.session matches Some(session) ==> session.live.properties.dom().finite(),
    {
        let info: StatusInfo = match &self.session {
            None => StatusInfo {
                state: ConnState::NoSession,
                destination: None,
                width: None,
                height: None,
                message: None,
            },
            Some(session) => {
                let (width, height): (Option<u16>, Option<u16>) = match session.live.frame_size {
                    Some((width, height)) => (Some(width), Some(height)),
                    None => (None, None),
                };
                let mut secrets: Vec<String> = Vec::new();
                assert(texts(secrets@) =~= Seq::empty());
                add_secrets(&mut secrets, &session.live.properties);
                StatusInfo {
                    state: session.live.state,
                    destination: Some(scrub(session.destination.as_str(), &secrets)),
                    width,
                    height,
                    message: match &session.live.error {
                        Some(error) => Some(scrub(error.as_str(), &secrets)),
                        None => None,
                    },
                }
            },
        };
        Response::Success(Payload::Status(info))
    }

    /// The answer to a request for the properties of the session.
    pub fn dump_properties(&self, filter: Option<&KeyFilter>) -> (response: Response)
        ensures
            response@ == dump_answer(
                self@.session,
                match filter {
                    Some(filter) => Some(*filter),
                    None => None,
                },
            ),
            self@.session matches Some(session) ==> session.live.properties.dom().finite(),
    {
        match &self.session {
            None => Response::error("no active session"),
            Some(session) => Response::Success(
                Payload::Properties(dump_of(&session.live.properties, filter)),
            ),
        }
    }

    /// The answer to a request for log lines.
    pub fn query_logs(
        &self,
        logs: &LogBuffer,
        substring: Option<&str>,
        last: Option<u32>,
    ) -> (response: Response)
        ensures
            response@ == logs_answer(
                logs.lines(),
                match substring {
                    Some(substring) => Some(substring@),
                    None => None,
                },
                last,
            ),
    {
        let mut lines: Vec<String> = logs.query(substring);
        let ghost found = lines@;
        if let Some(last) = last {
            let last: usize = last as usize;
            if last < lines.len() {
                let forgotten: usize = lines.len() - last;
                lines = lines.split_off(forgotten);
                assert(texts(lines@) =~= texts(found).skip(forgotten as int));
            }
        }
        Response::Success(Payload::Logs(lines))
    }

    /// The answer to a request for the size of the most recent frame.
    pub fn screenshot(&self) -> (response: Response)
        ensures
            response@ == screenshot_answer(self@.session),
    {
        match &self.session {
            None => Response::error("no active session"),
            Some(session) => match session.live.frame_size {
                Some((width, height)) => Response::Success(Payload::Screenshot { width, height }),
                None => Response::error("no frame available yet"),
            },
        }
    }

    /// The step that follows an operation.
    pub fn input(&mut self, operation: Operation) -> (step: Step)
        ensures
            final(self).version == old(self).version,
            final(self).session_id == old(self).session_id,
            (final(self)@.session, step@) == operated(old(self)@.session, operation),
            old(self)@.well_formed() ==> final(self)@.well_formed(),
    {
        match &mut self.session {
            None => Step::Reply(Response::error("no active session")),
            Some(session) => {
                let events: Vec<FastPathInputEvent> = apply_operation(
                    &mut session.input_db,
                    operation,
                );
                if events.len() == 0 {
                    Step::Reply(Response::ok())
                } else {
                    Step::Send(events)
                }
            },
        }
    }

    /// Follows an event of session `session_id`. An event of a session that was replaced changes
    /// nothing.
    pub fn consume_output(&mut self, session_id: u64, event: OutputEvent)
        ensures
            final(self)@ == followed(old(self)@, session_id, event),
            old(self)@.well_formed() && event.is_possible() ==> final(self)@.well_formed(),
    {
        if session_id == self.session_id {
            match &mut self.session {
                None => {},
                Some(session) => session.live.consume(event),
            }
        }
    }
}

} // verus!

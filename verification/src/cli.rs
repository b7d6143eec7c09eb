//! The command line's decisions: what an invocation asks for, the request it becomes, and how the
//! answer reads.

use ironrdp_propertyset::PropertySet;
use vstd::prelude::*;

use crate::client::{
    check_properties, check_view, missing_fields_message, missing_fields_text, properties_checked,
    MissingField,
};
use crate::input::MouseButton;
use crate::ipc::{
    texts, ConnState, EntryView, KeyFilter, Payload, PayloadView, PropertyEntry, Request, Response,
    ResponseView, StatusInfo, StatusView,
};
use crate::properties::{insert_property, property_map, PropValue, PropertyMap, PropertyValue};
use crate::text::{
    decimal, number_value, push_decimal, read_number, signed_decimal, to_chars, to_decimal,
    NumberError,
};
use crate::wire::opt_text;

pub mod laws;
pub mod outcomes;

verus! {

// ---------------------------------------------------------------------------
// Invocations
// ---------------------------------------------------------------------------

/// IronRDP agent: a CLI-driven, daemon-backed RDP client.
#[derive(Debug)]
pub struct Cli {
    /// Print a structured, LLM-friendly guide to every operation and exit.
    pub help_agent: bool,
    /// Override the IPC endpoint (defaults to the per-user socket/pipe).
    pub endpoint: Option<String>,
    /// What to do.
    pub command: Option<Command>,
}

/// What an invocation is to do.
#[derive(Debug)]
pub enum Command {
    /// Run the long-lived daemon in the foreground (owns the RDP session).
    DaemonStart,
    /// Open an RDP session from a .rdp file and/or CLI overrides.
    Connect(ConnectArgs),
    /// Tear down the current RDP session (the daemon keeps running).
    Disconnect,
    /// Report the current session status.
    Status,
    /// Dump the live session properties (secret values are redacted).
    DumpProperties(DumpArgs),
    /// Print retained daemon log lines.
    QueryLogs(QueryLogsArgs),
    /// Print the most recent frame dimensions.
    Screenshot,
    /// Move the mouse pointer to an absolute position.
    MouseMove {
        /// Distance from the left edge.
        x: u16,
        /// Distance from the top edge.
        y: u16,
    },
    /// Press or release a mouse button.
    MouseButton {
        /// The button.
        button: CliMouseButton,
        /// Whether it goes down.
        pressed: bool,
    },
    /// Rotate the mouse wheel (negative delta scrolls down/left).
    Wheel {
        /// By how much.
        delta: i16,
        /// Whether the horizontal wheel is meant.
        horizontal: bool,
    },
    /// Press or release a key identified by its RDP scancode.
    KeyScancode {
        /// The scancode.
        scancode: u16,
        /// Whether it goes down.
        pressed: bool,
    },
    /// Press or release a key identified by a Unicode character.
    KeyUnicode {
        /// The character.
        character: char,
        /// Whether it goes down.
        pressed: bool,
    },
}

/// What to connect to, and as whom.
#[derive(Debug)]
pub struct ConnectArgs {
    /// Path to a .rdp file to read the base configuration from.
    pub rdp_file: Option<String>,
    /// RDP server address (host[:port]). Overrides the .rdp file.
    pub server: Option<String>,
    /// RDP account user name. Overrides the .rdp file.
    pub username: Option<String>,
    /// RDP account password. Overrides the .rdp file.
    pub password: Option<String>,
    /// RDP account domain. Overrides the .rdp file.
    pub domain: Option<String>,
}

/// Which properties to show.
#[derive(Debug)]
pub struct DumpArgs {
    /// Only show keys containing this substring (case-insensitive).
    pub filter: Option<String>,
    /// Only show keys starting with this prefix (case-insensitive).
    pub prefix: Option<String>,
}

/// Which log lines to print.
#[derive(Debug)]
pub struct QueryLogsArgs {
    /// Only show lines containing this substring.
    pub substring: Option<String>,
    /// Only show the last N retained lines.
    pub last: Option<u32>,
}

/// A mouse button, as it is named on the command line.
#[derive(Debug, Clone, Copy, PartialEq, Eq)]
pub enum CliMouseButton {
    /// The left button.
    Left,
    /// The middle button.
    Middle,
    /// The right button.
    Right,
    /// The first extra button.
    X1,
    /// The second extra button.
    X2,
}

impl CliMouseButton {
    /// The button that is meant.
    pub open spec fn button(self) -> MouseButton {
        match self {
            CliMouseButton::Left => MouseButton::Left,
            CliMouseButton::Middle => MouseButton::Middle,
            CliMouseButton::Right => MouseButton::Right,
            CliMouseButton::X1 => MouseButton::X1,
            CliMouseButton::X2 => MouseButton::X2,
        }
    }

    /// The button that is meant.
    pub fn into_button(self) -> (button: MouseButton)
        ensures
            button == self.button(),
    {
        match self {
            CliMouseButton::Left => MouseButton::Left,
            CliMouseButton::Middle => MouseButton::Middle,
            CliMouseButton::Right => MouseButton::Right,
            CliMouseButton::X1 => MouseButton::X1,
            CliMouseButton::X2 => MouseButton::X2,
        }
    }
}

/// The scancode that `input` writes: in hexadecimal after `0x` or `0X`, and else in decimal.
pub open spec fn scancode_value(input: Seq<char>) -> Result<int, NumberError> {
    if input.len() >= 2 && input[0] == '0' && (input[1] == 'x' || input[1] == 'X') {
        number_value(input.skip(2), 16, u16::MAX as int)
    } else {
        number_value(input, 10, u16::MAX as int)
    }
}

/// Parses an RDP scancode in decimal or `0x`-prefixed hexadecimal.
pub fn parse_scancode(input: &str) -> (scancode: Result<u16, NumberError>)
    ensures
        scancode_value(input@) == match scancode {
            Ok(scancode) => Ok::<int, NumberError>(scancode as int),
            Err(error) => Err(error),
        },
{
    let chars: Vec<char> = to_chars(input);
    assert(chars@.skip(0) =~= chars@);
    let number: Result<u32, NumberError> = if chars.len() >= 2 && chars[0] == '0' && (chars[1]
        == 'x' || chars[1] == 'X') {
        read_number(&chars, 2, 16, 0xffff)
    } else {
        read_number(&chars, 0, 10, 0xffff)
    };
    match number {
        Ok(number) => Ok(number as u16),
        Err(error) => Err(error),
    }
}

// ---------------------------------------------------------------------------
// What to do
// ---------------------------------------------------------------------------

/// Where the daemon listens.
#[derive(Debug, PartialEq, Eq)]
pub struct Endpoint(pub String);

/// What is to be done about an invocation.
#[derive(Debug)]
pub enum Action {
    /// Print the guide to every operation.
    PrintGuide,
    /// Print the usual help.
    PrintHelp,
    /// Run the daemon there.
    StartDaemon(Endpoint),
    /// Read the .rdp file, if one is named, and send what [`build_connect_request`] makes of it.
    Connect(Endpoint, ConnectArgs),
    /// Send this request, and print the answer.
    Send(Endpoint, Request),
}

/// The endpoint that was asked for, and the default one if none was.
pub open spec fn endpoint_of(arg: Option<String>, default_endpoint: Endpoint) -> Endpoint {
    match arg {
        Some(value) => Endpoint(value),
        None => default_endpoint,
    }
}

/// The filter that was asked for: a substring goes before a prefix.
pub open spec fn filter_of(args: DumpArgs) -> Option<KeyFilter> {
    match (args.filter, args.prefix) {
        (Some(filter), _) => Some(KeyFilter::Substring(filter)),
        (None, Some(prefix)) => Some(KeyFilter::Prefix(prefix)),
        (None, None) => None,
    }
}

/// What is to be done about a command.
pub open spec fn command_action(command: Command, endpoint: Endpoint) -> Action {
    match command {
        Command::DaemonStart => Action::StartDaemon(endpoint),
        Command::Connect(args) => Action::Connect(endpoint, args),
        Command::Disconnect => Action::Send(endpoint, Request::Disconnect),
        Command::Status => Action::Send(endpoint, Request::Status),
        Command::DumpProperties(args) => Action::Send(
            endpoint,
            Request::DumpProperties { filter: filter_of(args) },
        ),
        Command::QueryLogs(args) => Action::Send(
            endpoint,
            Request::QueryLogs { substring: args.substring, last: args.last },
        ),
        Command::Screenshot => Action::Send(endpoint, Request::Screenshot),
        Command::MouseMove { x, y } => Action::Send(endpoint, Request::MouseMove { x, y }),
        Command::MouseButton { button, pressed } => Action::Send(
            endpoint,
            Request::MouseButton { button: button.button(), pressed },
        ),
        Command::Wheel { delta, horizontal } => Action::Send(
            endpoint,
            Request::Wheel { delta, horizontal },
        ),
        Command::KeyScancode { scancode, pressed } => Action::Send(
            endpoint,
            Request::KeyScancode { scancode, pressed },
        ),
        Command::KeyUnicode { character, pressed } => Action::Send(
            endpoint,
            Request::KeyUnicode { ch: character, pressed },
        ),
    }
}

/// What is to be done about an invocation: the guide goes before everything else.
pub open spec fn planned(cli: Cli, default_endpoint: Endpoint) -> Action {
    if cli.help_agent {
        Action::PrintGuide
    } else {
        match cli.command {
            None => Action::PrintHelp,
            Some(command) => command_action(command, endpoint_of(cli.endpoint, default_endpoint)),
        }
    }
}

/// The endpoint that was asked for, and the default one if none was.
pub fn endpoint_from_arg(arg: Option<String>, default_endpoint: Endpoint) -> (endpoint: Endpoint)
    ensures
        endpoint == endpoint_of(arg, default_endpoint),
{
    match arg {
        Some(value) => Endpoint(value),
        None => default_endpoint,
    }
}

/// What is to be done about an invocation.
pub fn dispatch(cli: Cli, default_endpoint: Endpoint) -> (action: Action)
    ensures
        action == planned(cli, default_endpoint),
{
    if cli.help_agent {
        return Action::PrintGuide;
    }
    let endpoint: Endpoint = endpoint_from_arg(cli.endpoint, default_endpoint);
    let command: Command = match cli.command {
        None => {
            return Action::PrintHelp;
        },
        Some(command) => command,
    };
    let request: Request = match command {
        Command::DaemonStart => {
            return Action::StartDaemon(endpoint);
        },
        Command::Connect(args) => {
            return Action::Connect(endpoint, args);
        },
        Command::Disconnect => Request::Disconnect,
        Command::Status => Request::Status,
        Command::DumpProperties(args) => Request::DumpProperties {
            filter: match args.filter {
                Some(filter) => Some(KeyFilter::Substring(filter)),
                None => match args.prefix {
                    Some(prefix) => Some(KeyFilter::Prefix(prefix)),
                    None => None,
                },
            },
        },
        Command::QueryLogs(args) => Request::QueryLogs {
            substring: args.substring,
            last: args.last,
        },
        Command::Screenshot => Request::Screenshot,
        Command::MouseMove { x, y } => Request::MouseMove { x, y },
        Command::MouseButton { button, pressed } => Request::MouseButton {
            button: button.into_button(),
            pressed,
        },
        Command::Wheel { delta, horizontal } => Request::Wheel { delta, horizontal },
        Command::KeyScancode { scancode, pressed } => Request::KeyScancode { scancode, pressed },
        Command::KeyUnicode { character, pressed } => Request::KeyUnicode {
            ch: character,
            pressed,
        },
    };
    Action::Send(endpoint, request)
}

// ---------------------------------------------------------------------------
// Connecting
// ---------------------------------------------------------------------------

/// A .rdp file that was read.
#[derive(Debug)]
pub struct RdpFile {
    /// Where it was.
    pub path: String,
    /// What it said.
    pub text: String,
}

/// What comes of the wish to connect.
#[derive(Debug)]
pub struct ConnectPlan {
    /// What to warn of.
    pub warnings: Vec<String>,
    /// The request to send, or why there is none.
    pub request: Result<Request, String>,
}

/// What a .rdp file says: the properties in it, and a complaint about each line that is skipped.
pub uninterp spec fn rdp_file_read(text: Seq<char>) -> (PropertyMap, Seq<Seq<char>>);

/// `ironrdp_rdpfile::load`: what a text says is determined by the text. The properties in it are
/// added, over those of the same key that were there, and the errors are returned as they display.
#[verifier::external_body]
fn load_rdp_file(properties: &mut PropertySet, text: &str) -> (errors: Vec<String>)
    ensures
        property_map(*final(properties)) == property_map(*old(properties)).union_prefer_right(
            rdp_file_read(text@).0,
        ),
        texts(errors@) == rdp_file_read(text@).1,
{
    match ironrdp_rdpfile::load(properties, text) {
        Ok(()) => Vec::new(),
        Err(errors) => errors.iter().map(|error| error.to_string()).collect(),
    }
}

/// The warnings about lines of a file that were skipped.
pub open spec fn skip_warnings(path: Seq<char>, errors: Seq<Seq<char>>) -> Seq<Seq<char>> {
    errors.map_values(
        |error: Seq<char>| "warning: skipped entry in "@ + path + ": "@ + error,
    )
}

/// The warnings about lines of a file that were skipped.
pub fn warn_of_skipped(path: &str, errors: &Vec<String>) -> (warnings: Vec<String>)
    ensures
        texts(warnings@) == skip_warnings(path@, texts(errors@)),
{
    let mut warnings: Vec<String> = Vec::new();
    for i in 0..errors.len()
        invariant
            texts(warnings@) == skip_warnings(path@, texts(errors@).take(i as int)),
    {
        let ghost before = warnings@;
        let mut warning: String = "warning: skipped entry in ".to_owned();
        warning.append(path);
        warning.append(": ");
        warning.append(errors[i].as_str());
        let ghost text = warning@;
        warnings.push(warning);
        assert(texts(warnings@) =~= texts(before).push(text));
        assert(texts(warnings@) =~= skip_warnings(path@, texts(errors@).take(i + 1)));
    }
    assert(texts(errors@).take(errors@.len() as int) =~= texts(errors@));
    warnings
}

/// `properties` with `value` under `key`, if there is one.
pub open spec fn with_override(
    properties: PropertyMap,
    key: Seq<char>,
    value: Option<Seq<char>>,
) -> PropertyMap {
    match value {
        Some(value) => properties.insert(key, PropertyValue::Str(value)),
        None => properties,
    }
}

/// `properties` with what the command line says over them.
pub open spec fn overridden(properties: PropertyMap, args: ConnectArgs) -> PropertyMap {
    let properties = with_override(properties, "full address"@, opt_text(args.server));
    let properties = with_override(properties, "username"@, opt_text(args.username));
    let properties = with_override(properties, "ClearTextPassword"@, opt_text(args.password));
    with_override(properties, "domain"@, opt_text(args.domain))
}

/// Puts `value`, if there is one, under `key`.
fn override_property(properties: &mut PropertySet, key: &str, value: &Option<String>)
    ensures
        property_map(*final(properties)) == with_override(
            property_map(*old(properties)),
            key@,
            opt_text(*value),
        ),
{
    match value {
        Some(value) => insert_property(properties, key.to_owned(), PropValue::Str(value.clone())),
        None => {},
    }
}

/// Puts what the command line says over `properties`.
pub fn apply_overrides(properties: &mut PropertySet, args: &ConnectArgs)
    ensures
        property_map(*final(properties)) == overridden(property_map(*old(properties)), *args),
{
    override_property(properties, "full address", &args.server);
    override_property(properties, "username", &args.username);
    override_property(properties, "ClearTextPassword", &args.password);
    override_property(properties, "domain", &args.domain);
}

/// The user is expected to supply the field (the daemon fills the rest).
pub open spec fn user_supplies(field: MissingField) -> bool {
    ||| field is ServerAddress
    ||| field is Username
    ||| field is Password
    ||| field is GatewayUsername
    ||| field is GatewayPassword
}

/// Returns `true` for missing fields the user is expected to supply (the daemon fills the rest).
pub fn is_user_field(field: &MissingField) -> (user: bool)
    ensures
        user == user_supplies(*field),
{
    match field {
        MissingField::ServerAddress => true,
        MissingField::Username => true,
        MissingField::Password => true,
        MissingField::GatewayUsername => true,
        MissingField::GatewayPassword => true,
        _ => false,
    }
}

/// Why properties that were checked so are not sent.
pub open spec fn complaint(check: Result<Seq<MissingField>, Seq<char>>) -> Option<Seq<char>> {
    match check {
        Err(error) => Some("validate configuration: "@ + error),
        Ok(fields) => {
            let missing = fields.filter(|field: MissingField| user_supplies(field));
            if missing.len() > 0 {
                Some(missing_fields_text(missing))
            } else {
                None
            }
        },
    }
}

/// Why properties that were checked so are not sent.
pub fn complain(check: Result<Vec<MissingField>, String>) -> (error: Option<String>)
    ensures
        opt_text(error) == complaint(check_view(check)),
{
    match check {
        Err(error) => {
            let mut message: String = "validate configuration: ".to_owned();
            message.append(error.as_str());
            Some(message)
        },
        Ok(fields) => {
            let mut missing: Vec<MissingField> = Vec::new();
            let ghost kept = |field: MissingField| user_supplies(field);
            assert(fields@.take(0) =~= Seq::empty());
            assert(missing@ =~= fields@.take(0).filter(kept)) by {
                reveal(Seq::filter);
            }
            for i in 0..fields.len()
                invariant
                    kept == (|field: MissingField| user_supplies(field)),
                    missing@ == fields@.take(i as int).filter(kept),
            {
                assert(fields@.take(i + 1).drop_last() =~= fields@.take(i as int));
                proof {
                    reveal(Seq::filter);
                }
                if is_user_field(&fields[i]) {
                    missing.push(fields[i]);
                }
            }
            assert(fields@.take(fields@.len() as int) =~= fields@);
            if missing.len() > 0 {
                Some(missing_fields_message(&missing))
            } else {
                None
            }
        },
    }
}

/// The properties that the command line asks for: those of the file, and its own over them.
pub open spec fn wanted_properties(args: ConnectArgs, file: Option<RdpFile>) -> PropertyMap {
    overridden(
        match file {
            Some(file) => rdp_file_read(file.text@).0,
            None => PropertyMap::empty(),
        },
        args,
    )
}

/// The warnings about a file that was read.
pub open spec fn file_warnings(file: Option<RdpFile>) -> Seq<Seq<char>> {
    match file {
        Some(file) => skip_warnings(file.path@, rdp_file_read(file.text@).1),
        None => Seq::empty(),
    }
}

/// Builds a `Connect` request by merging what was read of a `.rdp` file with CLI overrides into one
/// [`PropertySet`], then pre-validating it locally.
pub fn build_connect_request(args: &ConnectArgs, file: Option<&RdpFile>) -> (plan: ConnectPlan)
    ensures
        ({
            let read = match file {
                Some(file) => Some(*file),
                None => None,
            };
            let properties = wanted_properties(*args, read);
            &&& texts(plan.warnings@) == file_warnings(read)
            &&& match complaint(properties_checked(properties)) {
                Some(message) => plan.request matches Err(error) && error@ == message,
                None => plan.request matches Ok(Request::Connect(sent)) && property_map(sent)
                    == properties,
            }
        }),
{
    let mut properties: PropertySet = PropertySet::new();
    let mut warnings: Vec<String> = Vec::new();
    assert(texts(warnings@) =~= Seq::empty());
    match file {
        Some(file) => {
            let errors: Vec<String> = load_rdp_file(&mut properties, file.text.as_str());
            assert(property_map(properties) =~= rdp_file_read(file.text@).0);
            warnings = warn_of_skipped(file.path.as_str(), &errors);
        },
        None => {},
    }
    apply_overrides(&mut properties, args);
    let request: Result<Request, String> = match complain(check_properties(&properties)) {
        Some(message) => Err(message),
        None => Ok(Request::Connect(properties)),
    };
    ConnectPlan { warnings, request }
}

// ---------------------------------------------------------------------------
// Answers
// ---------------------------------------------------------------------------

/// How a state reads.
pub open spec fn state_name(state: ConnState) -> Seq<char> {
    match state {
        ConnState::NoSession => "NoSession"@,
        ConnState::Connecting => "Connecting"@,
        ConnState::Connected => "Connected"@,
        ConnState::Disconnected => "Disconnected"@,
        ConnState::Failed => "Failed"@,
    }
}

/// How a size reads.
pub open spec fn size_text(width: u16, height: u16) -> Seq<char> {
    decimal(width as nat) + "x"@ + decimal(height as nat)
}

/// How a status reads.
pub open spec fn status_lines(status: StatusView) -> Seq<Seq<char>> {
    let first = seq!["state: "@ + state_name(status.state)];
    let second = match status.destination {
        Some(destination) => seq!["destination: "@ + destination],
        None => Seq::empty(),
    };
    let third = match (status.width, status.height) {
        (Some(width), Some(height)) => seq!["resolution: "@ + size_text(width, height)],
        _ => Seq::empty(),
    };
    let fourth = match status.message {
        Some(message) => seq!["detail: "@ + message],
        None => Seq::empty(),
    };
    first + second + third + fourth
}

/// How a property reads.
pub open spec fn entry_line(entry: EntryView) -> Seq<char> {
    let value = match entry.value {
        PropertyValue::Int(value) => signed_decimal(value as int),
        PropertyValue::Str(value) => value,
    };
    entry.key + " = "@ + value + match entry.description {
        Some(description) => "  # "@ + description,
        None => Seq::empty(),
    }
}

/// How what a request returns reads.
pub open spec fn payload_lines(payload: PayloadView) -> Seq<Seq<char>> {
    match payload {
        PayloadView::Empty => seq!["ok"@],
        PayloadView::Status(status) => status_lines(status),
        PayloadView::Properties(entries) => entries.map_values(
            |entry: EntryView| entry_line(entry),
        ),
        PayloadView::Logs(lines) => lines,
        PayloadView::Screenshot(width, height) => seq!["frame "@ + size_text(width, height)],
    }
}

/// How an answer reads: the lines to print, or why the request failed.
pub open spec fn response_lines(response: ResponseView) -> Result<Seq<Seq<char>>, Seq<char>> {
    match response {
        ResponseView::Success(payload) => Ok(payload_lines(payload)),
        ResponseView::Failure(message) => Err(message),
    }
}

fn push_size(text: &mut String, width: u16, height: u16)
    ensures
        final(text)@ == old(text)@ + size_text(width, height),
{
    push_decimal(text, width as u64);
    text.append("x");
    push_decimal(text, height as u64);
    assert(text@ =~= old(text)@ + size_text(width, height));
}

fn print_status(status: StatusInfo) -> (lines: Vec<String>)
    ensures
        texts(lines@) == status_lines(status@),
{
    let mut lines: Vec<String> = Vec::new();
    let mut line: String = "state: ".to_owned();
    line.append(
        match status.state {
            ConnState::NoSession => "NoSession",
            ConnState::Connecting => "Connecting",
            ConnState::Connected => "Connected",
            ConnState::Disconnected => "Disconnected",
            ConnState::Failed => "Failed",
        },
    );
    lines.push(line);
    if let Some(destination) = &status.destination {
        let mut line: String = "destination: ".to_owned();
        line.append(destination.as_str());
        lines.push(line);
    }
    match (status.width, status.height) {
        (Some(width), Some(height)) => {
            let mut line: String = "resolution: ".to_owned();
            push_size(&mut line, width, height);
            lines.push(line);
        },
        _ => {},
    }
    if let Some(message) = &status.message {
        let mut line: String = "detail: ".to_owned();
        line.append(message.as_str());
        lines.push(line);
    }
    assert(texts(lines@) =~= status_lines(status@));
    lines
}

fn print_entry(entry: &PropertyEntry) -> (line: String)
    ensures
        line@ == entry_line(entry@),
{
    let mut line: String = entry.key.clone();
    line.append(" = ");
    match &entry.value {
        PropValue::Int(value) => line.append(to_decimal(*value).as_str()),
        PropValue::Str(value) => line.append(value.as_str()),
    }
    if let Some(description) = &entry.description {
        line.append("  # ");
        line.append(description.as_str());
    }
    assert(line@ =~= entry_line(entry@));
    line
}

/// The lines to print of what a request returns.
pub fn print_payload(payload: Payload) -> (lines: Vec<String>)
    ensures
        texts(lines@) == payload_lines(payload@),
{
    match payload {
        Payload::Empty => {
            let lines: Vec<String> = vec!["ok".to_owned()];
            assert(texts(lines@) =~= seq!["ok"@]);
            lines
        },
        Payload::Status(status) => print_status(status),
        Payload::Properties(dump) => {
            let mut lines: Vec<String> = Vec::new();
            for i in 0..dump.entries.len()
                invariant
                    lines.len() == i,
                    forall|j: int| 0 <= j < i ==> (#[trigger] lines@[j])@ == entry_line(dump@[j]),
            {
                lines.push(print_entry(&dump.entries[i]));
                assert(dump@[i as int] == dump.entries@[i as int]@);
            }
            assert(texts(lines@) =~= payload_lines(PayloadView::Properties(dump@)));
            lines
        },
        Payload::Logs(lines) => lines,
        Payload::Screenshot { width, height } => {
            let mut line: String = "frame ".to_owned();
            push_size(&mut line, width, height);
            let ghost text = line@;
            let lines: Vec<String> = vec![line];
            assert(texts(lines@) =~= seq![text]);
            lines
        },
    }
}

/// The lines to print of an answer, or why the request failed.
pub fn print_response(response: Response) -> (printed: Result<Vec<String>, String>)
    ensures
        response_lines(response@) == match printed {
            Ok(lines) => Ok::<Seq<Seq<char>>, Seq<char>>(texts(lines@)),
            Err(message) => Err(message@),
        },
{
    match response {
        Response::Success(payload) => Ok(print_payload(payload)),
        Response::Failure(message) => Err(message),
    }
}

} // verus!

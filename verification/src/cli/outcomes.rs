//! What each command, each file and each answer comes to, said of what is given and what results.

use vstd::prelude::*;

use super::{
    complaint, file_warnings, payload_lines, planned, rdp_file_read, response_lines,
    scancode_value, state_name, user_supplies, wanted_properties, Action, Cli, CliMouseButton,
    Command, ConnectArgs, DumpArgs, Endpoint, QueryLogsArgs, RdpFile,
};
use crate::client::{names, MissingField};
use crate::daemon::{answered, SessionView};
use crate::input::MouseButton;
use crate::ipc::{
    ConnState, EntryView, KeyFilter, PayloadView, Request, ResponseView, StatusView,
};
use crate::properties::PropertyValue;
use crate::text::laws::{all_digits, digits_are_read_as_what_they_stand_for, positional};
use crate::text::{decimal, digit_value, number_value, signed_decimal, NumberError};

verus! {

// ---------------------------------------------------------------------------
// What is asked of the daemon
// ---------------------------------------------------------------------------

/// An invocation of `command`, with what may be an endpoint.
pub open spec fn invoked(endpoint: Option<String>, command: Command) -> Cli {
    Cli { help_agent: false, endpoint, command: Some(command) }
}

/// Where an invocation with what may be an endpoint sends its request.
pub open spec fn is_sent_to(endpoint: Option<String>, default: Endpoint, to: Endpoint) -> bool {
    &&& endpoint matches Some(endpoint) ==> to.0 == endpoint
    &&& endpoint is None ==> to == default
}

/// `request` is sent for `command`, to the endpoint that was asked for, or to the default one.
pub open spec fn is_sent_for(
    endpoint: Option<String>,
    default: Endpoint,
    command: Command,
    request: Request,
) -> bool {
    &&& planned(invoked(endpoint, command), default) matches Action::Send(to, sent)
    &&& sent == request
    &&& is_sent_to(endpoint, default, to)
}

/// The guide is printed exactly where it is asked for, whatever else is, and help exactly where
/// nothing is asked for.
pub proof fn the_guide_goes_first(cli: Cli, default: Endpoint)
    ensures
        planned(cli, default) is PrintGuide <==> cli.help_agent,
        planned(cli, default) is PrintHelp <==> !cli.help_agent && cli.command is None,
{
}

/// A request for input holds each field of its command as it is.
pub proof fn input_is_sent_unchanged(
    endpoint: Option<String>,
    default: Endpoint,
    x: u16,
    y: u16,
    delta: i16,
    scancode: u16,
    character: char,
    flag: bool,
)
    ensures
        is_sent_for(endpoint, default, Command::MouseMove { x, y }, Request::MouseMove { x, y }),
        is_sent_for(
            endpoint,
            default,
            Command::Wheel { delta, horizontal: flag },
            Request::Wheel { delta, horizontal: flag },
        ),
        is_sent_for(
            endpoint,
            default,
            Command::KeyScancode { scancode, pressed: flag },
            Request::KeyScancode { scancode, pressed: flag },
        ),
        is_sent_for(
            endpoint,
            default,
            Command::KeyUnicode { character, pressed: flag },
            Request::KeyUnicode { ch: character, pressed: flag },
        ),
        is_sent_for(
            endpoint,
            default,
            Command::MouseButton { button: CliMouseButton::Left, pressed: flag },
            Request::MouseButton { button: MouseButton::Left, pressed: flag },
        ),
        is_sent_for(
            endpoint,
            default,
            Command::MouseButton { button: CliMouseButton::Middle, pressed: flag },
            Request::MouseButton { button: MouseButton::Middle, pressed: flag },
        ),
        is_sent_for(
            endpoint,
            default,
            Command::MouseButton { button: CliMouseButton::Right, pressed: flag },
            Request::MouseButton { button: MouseButton::Right, pressed: flag },
        ),
        is_sent_for(
            endpoint,
            default,
            Command::MouseButton { button: CliMouseButton::X1, pressed: flag },
            Request::MouseButton { button: MouseButton::X1, pressed: flag },
        ),
        is_sent_for(
            endpoint,
            default,
            Command::MouseButton { button: CliMouseButton::X2, pressed: flag },
            Request::MouseButton { button: MouseButton::X2, pressed: flag },
        ),
{
}

/// Whether a command for input says that something goes down.
pub open spec fn presses(command: Command) -> Option<bool> {
    match command {
        Command::MouseButton { pressed, .. } => Some(pressed),
        Command::KeyScancode { pressed, .. } => Some(pressed),
        Command::KeyUnicode { pressed, .. } => Some(pressed),
        _ => None,
    }
}

/// Whether a request for input says that something goes down.
pub open spec fn is_pressed(request: Request) -> Option<bool> {
    match request {
        Request::MouseButton { pressed, .. } => Some(pressed),
        Request::KeyScancode { pressed, .. } => Some(pressed),
        Request::KeyUnicode { pressed, .. } => Some(pressed),
        _ => None,
    }
}

/// A request says that something goes down exactly where its command does, so that a press and a
/// release never become the same request.
pub proof fn presses_stay_presses(
    endpoint: Option<String>,
    default: Endpoint,
    command: Command,
    other: Command,
)
    ensures
        presses(command) is Some ==> (planned(
            invoked(endpoint, command),
            default,
        ) matches Action::Send(_, request) && is_pressed(request) == presses(command)),
        presses(command) is Some && presses(other) is Some && presses(command) != presses(other)
            ==> planned(invoked(endpoint, command), default)->Send_1 != planned(
            invoked(endpoint, other),
            default,
        )->Send_1,
{
}

/// What is pressed on the command line is down afterwards, and what is released is up: the key, the
/// character or the button of the session to which the daemon applies the request that is sent.
pub proof fn commands_press_and_release(
    endpoint: Option<String>,
    default: Endpoint,
    session: SessionView,
    lines: Seq<Seq<char>>,
    scancode: u16,
    character: char,
    pressed: bool,
)
    ensures
        ({
            let key = Command::KeyScancode { scancode, pressed };
            let request = planned(invoked(endpoint, key), default)->Send_1;
            answered(Some(session), lines, request).0 matches Some(after)
                && after.input.keys.contains((scancode >= 0xe000, (scancode % 256) as u8))
                == pressed
        }),
        ({
            let key = Command::KeyUnicode { character, pressed };
            let request = planned(invoked(endpoint, key), default)->Send_1;
            answered(Some(session), lines, request).0 matches Some(after)
                && after.input.chars.contains(character) == pressed
        }),
        ({
            let left = Command::MouseButton { button: CliMouseButton::Left, pressed };
            let request = planned(invoked(endpoint, left), default)->Send_1;
            answered(Some(session), lines, request).0 matches Some(after)
                && after.input.buttons.contains(MouseButton::Left) == pressed
        }),
{
}

/// Commands that only ask become the request of their name, with what they ask for: a filter for a
/// substring goes before one for a prefix, and log lines are asked for by text and number as they
/// are given.
pub proof fn questions_are_sent_unchanged(
    endpoint: Option<String>,
    default: Endpoint,
    filter: String,
    prefix: Option<String>,
    text: String,
    substring: Option<String>,
    last: Option<u32>,
)
    ensures
        is_sent_for(endpoint, default, Command::Disconnect, Request::Disconnect),
        is_sent_for(endpoint, default, Command::Status, Request::Status),
        is_sent_for(endpoint, default, Command::Screenshot, Request::Screenshot),
        is_sent_for(
            endpoint,
            default,
            Command::QueryLogs(QueryLogsArgs { substring, last }),
            Request::QueryLogs { substring, last },
        ),
        is_sent_for(
            endpoint,
            default,
            Command::DumpProperties(DumpArgs { filter: Some(filter), prefix }),
            Request::DumpProperties { filter: Some(KeyFilter::Substring(filter)) },
        ),
        is_sent_for(
            endpoint,
            default,
            Command::DumpProperties(DumpArgs { filter: None, prefix: Some(text) }),
            Request::DumpProperties { filter: Some(KeyFilter::Prefix(text)) },
        ),
        is_sent_for(
            endpoint,
            default,
            Command::DumpProperties(DumpArgs { filter: None, prefix: None }),
            Request::DumpProperties { filter: None },
        ),
{
}

/// The daemon is started, and a session asked for with the arguments as they are given, at the
/// endpoint that was asked for, or at the default one.
pub proof fn endpoints_are_respected(
    endpoint: Option<String>,
    default: Endpoint,
    args: ConnectArgs,
)
    ensures
        planned(invoked(endpoint, Command::DaemonStart), default) matches Action::StartDaemon(to)
            && is_sent_to(endpoint, default, to),
        planned(invoked(endpoint, Command::Connect(args)), default) matches Action::Connect(
            to,
            given,
        ) && given == args && is_sent_to(endpoint, default, to),
{
}

// ---------------------------------------------------------------------------
// Connecting
// ---------------------------------------------------------------------------

/// An argument gives the property under `key`.
pub open spec fn is_given(args: ConnectArgs, key: Seq<char>) -> bool {
    ||| args.server is Some && key == "full address"@
    ||| args.username is Some && key == "username"@
    ||| args.password is Some && key == "ClearTextPassword"@
    ||| args.domain is Some && key == "domain"@
}

/// What an argument gives is asked for, whether a file was read or not and whatever it says.
pub proof fn arguments_win_over_the_file(args: ConnectArgs, file: Option<RdpFile>)
    ensures
        ({
            let wanted = wanted_properties(args, file);
            &&& args.server matches Some(server) ==> wanted.contains_key("full address"@)
                && wanted["full address"@] == PropertyValue::Str(server@)
            &&& args.username matches Some(username) ==> wanted.contains_key("username"@)
                && wanted["username"@] == PropertyValue::Str(username@)
            &&& args.password matches Some(password) ==> wanted.contains_key("ClearTextPassword"@)
                && wanted["ClearTextPassword"@] == PropertyValue::Str(password@)
            &&& args.domain matches Some(domain) ==> wanted.contains_key("domain"@)
                && wanted["domain"@] == PropertyValue::Str(domain@)
        }),
{
    lemma_keys_differ();
}

/// What no argument gives is asked for exactly as the text of the file says, and not at all where
/// it says nothing or there is no file; where the file was does not matter.
pub proof fn the_file_gives_the_rest(args: ConnectArgs, file: RdpFile, key: Seq<char>)
    requires
        !is_given(args, key),
    ensures
        !wanted_properties(args, None).contains_key(key),
        wanted_properties(args, Some(file)).contains_key(key) <==> rdp_file_read(
            file.text@,
        ).0.contains_key(key),
        rdp_file_read(file.text@).0.contains_key(key) ==> wanted_properties(args, Some(file))[key]
            == rdp_file_read(file.text@).0[key],
{
    lemma_keys_differ();
}

proof fn lemma_keys_differ()
    ensures
        "full address"@ != "username"@,
        "full address"@ != "ClearTextPassword"@,
        "full address"@ != "domain"@,
        "username"@ != "ClearTextPassword"@,
        "username"@ != "domain"@,
        "ClearTextPassword"@ != "domain"@,
{
    reveal_strlit("full address");
    reveal_strlit("username");
    reveal_strlit("ClearTextPassword");
    reveal_strlit("domain");
    assert("full address"@.len() == 12);
    assert("username"@.len() == 8);
    assert("ClearTextPassword"@.len() == 17);
    assert("domain"@.len() == 6);
}

/// There is a warning for each line of the file that was skipped, in their order, that says where
/// the file was and what was wrong; without a file there is none.
pub proof fn skipped_lines_are_warned_of(file: RdpFile, at: int)
    ensures
        file_warnings(None).len() == 0,
        file_warnings(Some(file)).len() == rdp_file_read(file.text@).1.len(),
        0 <= at < rdp_file_read(file.text@).1.len() ==> file_warnings(Some(file))[at]
            == "warning: skipped entry in "@ + file.path@ + ": "@ + rdp_file_read(
            file.text@,
        ).1[at],
{
}

/// The user gives the field: the address of the server, a user name or a password.
pub open spec fn user_gives(field: MissingField) -> bool {
    ||| field is ServerAddress
    ||| field is Username
    ||| field is Password
    ||| field is GatewayUsername
    ||| field is GatewayPassword
}

/// The command line complains of an invalid configuration with what the check says, and of missing
/// fields with all that the user gives, in their order. It takes no notice of a field that the user
/// does not give, wherever that stands, and does not complain where there is no other.
pub proof fn missing_fields_are_complained_of(
    error: Seq<char>,
    fields: Seq<MissingField>,
    first: Seq<MissingField>,
    field: MissingField,
    second: Seq<MissingField>,
)
    requires
        forall|i: int| 0 <= i < fields.len() ==> user_gives(#[trigger] fields[i]),
        !user_gives(field),
    ensures
        complaint(Err(error)) == Some("validate configuration: "@ + error),
        fields.len() > 0 ==> complaint(Ok(fields)) == Some(
            "missing required fields: "@ + names(fields),
        ),
        complaint(Ok(Seq::empty())) is None,
        complaint(Ok(first + seq![field] + second)) == complaint(Ok(first + second)),
{
    let kept = |field: MissingField| user_supplies(field);
    lemma_all_kept(fields, kept);
    reveal_with_fuel(Seq::filter, 3);
    Seq::filter_distributes_over_add(first + seq![field], second, kept);
    Seq::filter_distributes_over_add(first, seq![field], kept);
    Seq::filter_distributes_over_add(first, second, kept);
    assert(seq![field].drop_last() =~= Seq::empty());
    assert(seq![field].filter(kept) =~= Seq::empty());
    assert((first + seq![field] + second).filter(kept) =~= (first + second).filter(kept));
}

proof fn lemma_all_kept(fields: Seq<MissingField>, kept: spec_fn(MissingField) -> bool)
    requires
        forall|i: int| 0 <= i < fields.len() ==> kept(#[trigger] fields[i]),
    ensures
        fields.filter(kept) == fields,
    decreases fields.len(),
{
    reveal(Seq::filter);
    if fields.len() == 0 {
        assert(fields =~= Seq::empty());
    } else {
        let fewer = fields.drop_last();
        assert forall|i: int| 0 <= i < fewer.len() implies kept(#[trigger] fewer[i]) by {
            assert(fewer[i] == fields[i]);
        }
        lemma_all_kept(fewer, kept);
        assert(kept(fields[fields.len() - 1]));
        assert(fields.filter(kept) =~= fields);
    }
}

// ---------------------------------------------------------------------------
// Scancodes
// ---------------------------------------------------------------------------

/// Decimal digits are read as the number that they stand for, and hexadecimal ones behind `0x` or
/// `0X` as theirs, where sixteen bits can hold it; a number that is greater is refused for that.
pub proof fn scancodes_are_what_their_digits_stand_for(digits: Seq<char>)
    requires
        digits.len() > 0,
    ensures
        all_digits(digits, 10) ==> scancode_value(digits) == if positional(digits, 10) <= 65535 {
            Ok::<int, NumberError>(positional(digits, 10))
        } else {
            Err(NumberError::PosOverflow)
        },
        all_digits(digits, 16) ==> scancode_value(seq!['0', 'x'] + digits) == if positional(
            digits,
            16,
        ) <= 65535 {
            Ok::<int, NumberError>(positional(digits, 16))
        } else {
            Err(NumberError::PosOverflow)
        },
        scancode_value(seq!['0', 'X'] + digits) == scancode_value(seq!['0', 'x'] + digits),
{
    assert((seq!['0', 'x'] + digits).skip(2) =~= digits);
    assert((seq!['0', 'X'] + digits).skip(2) =~= digits);
    if all_digits(digits, 10) {
        digits_are_read_as_what_they_stand_for(digits, 10, 65535);
        if digits.len() >= 2 {
            assert(digit_value(digits[1], 10) is Some);
        }
    }
    if all_digits(digits, 16) {
        digits_are_read_as_what_they_stand_for(digits, 16, 65535);
    }
}

/// A text is read as a hexadecimal number behind `0x` or `0X` and as a decimal one otherwise, and
/// refused for what such a number is refused for.
pub proof fn scancodes_are_read_by_their_prefix(text: Seq<char>)
    ensures
        scancode_value(seq!['0', 'x'] + text) == number_value(text, 16, 65535),
        scancode_value(seq!['0', 'X'] + text) == number_value(text, 16, 65535),
        !seq!['0', 'x'].is_prefix_of(text) && !seq!['0', 'X'].is_prefix_of(text) ==> scancode_value(
            text,
        ) == number_value(text, 10, 65535),
{
    assert((seq!['0', 'x'] + text).skip(2) =~= text);
    assert((seq!['0', 'X'] + text).skip(2) =~= text);
    if text.len() >= 2 {
        assert(text[0] == '0' && text[1] == 'x' ==> seq!['0', 'x'].is_prefix_of(text));
        assert(text[0] == '0' && text[1] == 'X' ==> seq!['0', 'X'].is_prefix_of(text));
    }
}

// ---------------------------------------------------------------------------
// Answers
// ---------------------------------------------------------------------------

/// An answer fails for the reason that the daemon gives, and exactly where the daemon gives one.
pub proof fn failures_are_passed_on(message: Seq<char>, payload: PayloadView)
    ensures
        response_lines(ResponseView::Failure(message)) == Err::<Seq<Seq<char>>, Seq<char>>(message),
        response_lines(ResponseView::Success(payload)) == Ok::<Seq<Seq<char>>, Seq<char>>(
            payload_lines(payload),
        ),
{
}

/// Success with nothing to tell reads `ok`, log lines read as they are, and the size of a frame as
/// its width and its height.
pub proof fn plain_answers_read_so(lines: Seq<Seq<char>>, width: u16, height: u16)
    ensures
        payload_lines(PayloadView::Empty) == seq!["ok"@],
        payload_lines(PayloadView::Logs(lines)) == lines,
        payload_lines(PayloadView::Screenshot(width, height)) == seq![
            "frame "@ + (decimal(width as nat) + "x"@ + decimal(height as nat)),
        ],
{
}

/// There is a line for each property, in their order: the key, the value as a text or a number, and
/// behind it what the property is, where that is known.
pub proof fn properties_read_line_by_line(entries: Seq<EntryView>, at: int)
    requires
        0 <= at < entries.len(),
    ensures
        ({
            let lines = payload_lines(PayloadView::Properties(entries));
            let entry = entries[at];
            let value = if entry.value is Int {
                signed_decimal(entry.value->Int_0 as int)
            } else {
                entry.value->Str_0
            };
            &&& lines.len() == entries.len()
            &&& entry.description is None ==> lines[at] == entry.key + " = "@ + value
            &&& entry.description matches Some(description) ==> lines[at] == entry.key + " = "@
                + value + "  # "@ + description
        }),
{
    let entry = entries[at];
    let value = if entry.value is Int {
        signed_decimal(entry.value->Int_0 as int)
    } else {
        entry.value->Str_0
    };
    let line = payload_lines(PayloadView::Properties(entries))[at];
    if let Some(description) = entry.description {
        assert(line =~= entry.key + " = "@ + value + "  # "@ + description);
    } else {
        assert(line =~= entry.key + " = "@ + value);
    }
}

/// A status reads as a line on where the session stands and one more for each of its destination,
/// its size and its message that there is, in this order.
pub proof fn statuses_read_line_by_line(status: StatusView)
    ensures
        ({
            let lines = payload_lines(PayloadView::Status(status));
            let sized = status.width is Some && status.height is Some;
            let size_at: int = if status.destination is Some {
                2
            } else {
                1
            };
            let message_at: int = if sized {
                size_at + 1
            } else {
                size_at
            };
            &&& lines.len() == if status.message is Some {
                message_at + 1
            } else {
                message_at
            }
            &&& lines[0] == "state: "@ + state_name(status.state)
            &&& status.destination matches Some(destination) ==> lines[1] == "destination: "@
                + destination
            &&& sized ==> lines[size_at] == "resolution: "@ + (decimal(status.width->0 as nat)
                + "x"@ + decimal(status.height->0 as nat))
            &&& status.message matches Some(message) ==> lines[message_at] == "detail: "@ + message
        }),
{
}

/// Each state reads as its name.
pub proof fn states_read_as_their_names(state: ConnState)
    ensures
        state is NoSession ==> state_name(state) == "NoSession"@,
        state is Connecting ==> state_name(state) == "Connecting"@,
        state is Connected ==> state_name(state) == "Connected"@,
        state is Disconnected ==> state_name(state) == "Disconnected"@,
        state is Failed ==> state_name(state) == "Failed"@,
{
}

} // verus!

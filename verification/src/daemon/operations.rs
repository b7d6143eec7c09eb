//! What each request and each event comes to, said of what is asked, what was known before and what
//! is known and answered afterwards.

use ironrdp_client::config::Config;
use ironrdp_pdu::input::fast_path::FastPathInputEvent;
use vstd::prelude::*;

use super::laws::{dumps_are_complete, shows_key};
use super::{
    after_output, answered, connecting, delivery_answer, description_of, entry_of, followed,
    secrets_after, shown, started, Daemon, DaemonView, LiveView, OutputEvent, Session, SessionView,
    Step, StepView,
};
use crate::client::{
    config_built, missing_fields_text, not_supplied, properties_checked, IdentityView,
    MissingField,
};
use crate::input::{input_events, input_state, MouseButton, Operation};
use crate::ipc::{
    ConnState, EntryView, KeyFilter, PayloadView, Request, Response, ResponseView,
};
use crate::logbuf::laws::{
    count_containing, is_secret_of, lines_match_one_by_one, matching_lines_contain_the_text,
    only_secrets_are_registered, the_most_recent_are_the_last,
};
use crate::logbuf::{every_secret_is_registered, scrubbed, secrets_in, with_secrets};
use crate::properties::{
    finite_properties_have_a_listing, in_key_order, is_secret, key_before, property_map,
    PropertyMap, PropertyPair, PropertyValue,
};
use crate::text::contains_text;
use crate::wire::opt_text;

verus! {

// ---------------------------------------------------------------------------
// Events
// ---------------------------------------------------------------------------

/// Where a session stands after an event: a frame makes it connected, a connection that could not
/// be made and an end in an error make it failed, a graceful end makes it disconnected, and
/// anything else leaves it where it stood.
pub proof fn events_decide_where_a_session_stands(live: LiveView, event: OutputEvent)
    ensures
        after_output(live, event).state == if event is Image {
            ConnState::Connected
        } else if event is ConnectionFailure {
            ConnState::Failed
        } else if event is Terminated && event->Terminated_0 is Ok {
            ConnState::Disconnected
        } else if event is Terminated {
            ConnState::Failed
        } else {
            live.state
        },
{
}

/// An event of no interest changes nothing that is known of a session: not where it stands, not
/// why, not the size of its most recent frame and none of its properties.
pub proof fn other_events_change_nothing(live: LiveView)
    ensures
        after_output(live, OutputEvent::Other) == live,
        after_output(live, OutputEvent::Other).state == live.state,
        after_output(live, OutputEvent::Other).error == live.error,
        after_output(live, OutputEvent::Other).frame_size == live.frame_size,
        after_output(live, OutputEvent::Other).properties == live.properties,
{
}

/// What an event says of why a session stands where it does is known afterwards; a frame leaves
/// nothing to say.
pub proof fn events_say_why(live: LiveView, text: String, width: u16, height: u16)
    ensures
        after_output(live, OutputEvent::ConnectionFailure(text)).error == Some(text@),
        after_output(live, OutputEvent::Terminated(Ok(text))).error == Some(text@),
        after_output(live, OutputEvent::Terminated(Err(text))).error == Some(text@),
        after_output(live, OutputEvent::Image { width, height }).error is None,
        after_output(live, OutputEvent::Image { width, height }).frame_size == Some(
            (width, height),
        ),
{
}

/// A frame gives the properties its width and its height, and leaves the others.
pub proof fn frames_give_their_size(live: LiveView, width: u16, height: u16, key: Seq<char>)
    ensures
        ({
            let after = after_output(live, OutputEvent::Image { width, height }).properties;
            &&& after.contains_key("desktopwidth"@)
            &&& after["desktopwidth"@] == PropertyValue::Int(width as i64)
            &&& after.contains_key("desktopheight"@)
            &&& after["desktopheight"@] == PropertyValue::Int(height as i64)
            &&& key != "desktopwidth"@ && key != "desktopheight"@ ==> {
                &&& after.contains_key(key) == live.properties.contains_key(key)
                &&& live.properties.contains_key(key) ==> after[key] == live.properties[key]
            }
        }),
{
    reveal_strlit("desktopwidth");
    reveal_strlit("desktopheight");
    assert("desktopwidth"@.len() != "desktopheight"@.len());
}

/// The daemon follows the events of its current session and of no other, and they change nothing
/// but what is known of that session.
pub proof fn only_the_current_session_is_followed(daemon: DaemonView, id: u64, event: OutputEvent)
    ensures
        followed(daemon, id, event).version == daemon.version,
        followed(daemon, id, event).session_id == daemon.session_id,
        daemon.session is None ==> followed(daemon, id, event).session is None,
        id != daemon.session_id ==> followed(daemon, id, event).session == daemon.session,
        daemon.session matches Some(session) ==> {
            &&& followed(daemon, id, event).session matches Some(after)
            &&& after.input == session.input
            &&& after.destination == session.destination
            &&& id == daemon.session_id ==> after.live == after_output(session.live, event)
        },
{
}

// ---------------------------------------------------------------------------
// Status
// ---------------------------------------------------------------------------

/// A status says where the session stands, gives the size of its most recent frame if there was
/// one, and has a destination always and a message if there is something to say; without a session
/// it says that there is none and nothing more.
pub proof fn statuses_tell_what_is_known(
    session: SessionView,
    lines: Seq<Seq<char>>,
    width: u16,
    height: u16,
)
    ensures
        answered(Some(session), lines, Request::Status) matches (
            after,
            StepView::Reply(ResponseView::Success(PayloadView::Status(status))),
        ) && after == Some(session) && status.state == session.live.state
            && status.destination is Some && (status.message is Some <==> session.live.error
            is Some) && (status.width is Some <==> session.live.frame_size is Some) && (
        status.height is Some <==> session.live.frame_size is Some) && (session.live.frame_size
            == Some((width, height)) ==> status.width == Some(width) && status.height == Some(
            height,
        )),
        answered(None, lines, Request::Status) matches (
            after,
            StepView::Reply(ResponseView::Success(PayloadView::Status(status))),
        ) && after is None && status.state is NoSession && status.destination is None
            && status.width is None && status.height is None && status.message is None,
{
}

/// The texts in a status are those of the session, scrubbed of the secrets of its properties.
pub proof fn statuses_tell_scrubbed_texts(session: SessionView, lines: Seq<Seq<char>>)
    ensures
        answered(Some(session), lines, Request::Status) matches (
            _,
            StepView::Reply(ResponseView::Success(PayloadView::Status(status))),
        ) && status.destination == Some(
            scrubbed(session.destination, secrets_in(session.live.properties)),
        ) && (session.live.error matches Some(error) ==> status.message == Some(
            scrubbed(error, secrets_in(session.live.properties)),
        )),
{
}

// ---------------------------------------------------------------------------
// Log lines
// ---------------------------------------------------------------------------

/// The lines in an answer, if it is one of log lines.
pub open spec fn answered_lines(step: StepView) -> Seq<Seq<char>> {
    step->Reply_0->Success_0->Logs_0
}

/// The lines that a request for log lines is answered with when these are retained.
pub open spec fn told_lines(
    lines: Seq<Seq<char>>,
    substring: Option<String>,
    last: Option<u32>,
) -> Seq<Seq<char>> {
    answered_lines(answered(None, lines, Request::QueryLogs { substring, last }).1)
}

/// A request for log lines succeeds with lines, the same with any session and without one, and
/// changes nothing.
pub proof fn log_lines_are_told_to_anyone(
    session: Option<SessionView>,
    lines: Seq<Seq<char>>,
    substring: Option<String>,
    last: Option<u32>,
)
    ensures
        answered(session, lines, Request::QueryLogs { substring, last }) == (
            session,
            StepView::Reply(
                ResponseView::Success(PayloadView::Logs(told_lines(lines, substring, last))),
            ),
        ),
{
}

/// All retained lines are told where no text and no number of lines is asked for.
pub proof fn all_lines_are_told(lines: Seq<Seq<char>>)
    ensures
        told_lines(lines, None, None) == lines,
{
}

/// Where a text is asked for, exactly the lines that contain it are told, each where it stands
/// among the others: those of two runs of lines are those of the first and then those of the
/// second, and of a single line it is that line or none. Each of them contains the text and is
/// retained, and there are as many as there are retained lines that contain it.
pub proof fn lines_with_the_text_are_told(
    first: Seq<Seq<char>>,
    second: Seq<Seq<char>>,
    line: Seq<char>,
    needle: String,
)
    ensures
        told_lines(first + second, Some(needle), None) == told_lines(first, Some(needle), None)
            + told_lines(second, Some(needle), None),
        contains_text(line, needle@) ==> told_lines(seq![line], Some(needle), None) == seq![line],
        !contains_text(line, needle@) ==> told_lines(seq![line], Some(needle), None).len() == 0,
        told_lines(first, Some(needle), None).len() == count_containing(first, needle@),
        forall|i: int|
            0 <= i < told_lines(first, Some(needle), None).len() ==> {
                &&& contains_text(#[trigger] told_lines(first, Some(needle), None)[i], needle@)
                &&& first.contains(told_lines(first, Some(needle), None)[i])
            },
{
    lines_match_one_by_one(first, second, line, needle@);
    matching_lines_contain_the_text(first, needle@);
}

/// Where a number of lines is asked for, that many are told, or all that there would be without it:
/// the last of those. With a text, the number counts the lines that contain the text, and no
/// others.
pub proof fn the_last_of_the_lines_are_told(
    lines: Seq<Seq<char>>,
    substring: Option<String>,
    needle: String,
    last: u32,
)
    ensures
        ({
            let all = told_lines(lines, substring, None);
            let some = told_lines(lines, substring, Some(last));
            &&& some.len() == if all.len() < last {
                all.len()
            } else {
                last as nat
            }
            &&& some == all.skip(all.len() - some.len())
        }),
        ({
            let count = count_containing(lines, needle@);
            let some = told_lines(lines, Some(needle), Some(last));
            &&& some.len() == if count < last {
                count
            } else {
                last as nat
            }
            &&& forall|i: int| 0 <= i < some.len() ==> contains_text(#[trigger] some[i], needle@)
        }),
{
    let all = told_lines(lines, substring, None);
    let some = told_lines(lines, substring, Some(last));
    the_most_recent_are_the_last(all, last as nat);
    assert(some =~= all.skip(all.len() - some.len()));
    let found = told_lines(lines, Some(needle), None);
    let few = told_lines(lines, Some(needle), Some(last));
    the_most_recent_are_the_last(found, last as nat);
    matching_lines_contain_the_text(lines, needle@);
    assert forall|i: int| 0 <= i < few.len() implies contains_text(#[trigger] few[i], needle@) by {
        assert(few[i] == found[found.len() - few.len() + i]);
    }
}

// ---------------------------------------------------------------------------
// Frames and closing
// ---------------------------------------------------------------------------

/// The size of the most recent frame is given if there was a frame, and only then; the session is
/// left as it was.
pub proof fn the_most_recent_frame_is_given(
    session: SessionView,
    lines: Seq<Seq<char>>,
    width: u16,
    height: u16,
)
    ensures
        ({
            let (after, step) = answered(Some(session), lines, Request::Screenshot);
            &&& after == Some(session)
            &&& step == StepView::Reply(
                ResponseView::Success(PayloadView::Screenshot(width, height)),
            ) <==> session.live.frame_size == Some((width, height))
            &&& session.live.frame_size is None ==> step == StepView::Reply(
                ResponseView::Failure("no frame available yet"@),
            )
        }),
        answered(None, lines, Request::Screenshot) == (
            None::<SessionView>,
            StepView::Reply(ResponseView::Failure("no active session"@)),
        ),
{
}

/// Closing a session has the engine close it, is answered with success, and leaves a session that
/// is disconnected and otherwise what it was.
pub proof fn closing_only_disconnects(session: SessionView, lines: Seq<Seq<char>>)
    ensures
        answered(Some(session), lines, Request::Disconnect) matches (
            Some(after),
            StepView::Close(ResponseView::Success(PayloadView::Empty)),
        ) && after.live.state is Disconnected && after.live.properties == session.live.properties
            && after.live.error == session.live.error && after.live.frame_size
            == session.live.frame_size && after.input == session.input && after.destination
            == session.destination,
        answered(None, lines, Request::Disconnect) == (
            None::<SessionView>,
            StepView::Reply(ResponseView::Failure("no active session"@)),
        ),
{
}

// ---------------------------------------------------------------------------
// Input
// ---------------------------------------------------------------------------

/// What becomes of a request for input: `after` differs from `session` in what is pressed and where
/// the pointer is at most, and the events of `operation` are sent if `sent` holds and success is
/// answered otherwise.
pub open spec fn comes_to(
    session: SessionView,
    outcome: (Option<SessionView>, StepView),
    operation: Operation,
    sent: bool,
) -> bool {
    &&& outcome.0 matches Some(after)
    &&& after.live == session.live
    &&& after.destination == session.destination
    &&& outcome.1 == if sent {
        StepView::Send(input_events(session.input, operation))
    } else {
        StepView::Reply(ResponseView::Success(PayloadView::Empty))
    }
}

/// A move takes the pointer where it says and changes nothing that is pressed; it is sent unless
/// the pointer was there.
pub proof fn moves_take_the_pointer_there(
    session: SessionView,
    lines: Seq<Seq<char>>,
    x: u16,
    y: u16,
)
    ensures
        ({
            let outcome = answered(Some(session), lines, Request::MouseMove { x, y });
            let after = outcome.0->0.input;
            &&& comes_to(
                session,
                outcome,
                Operation::MouseMove { x, y },
                session.input.position != (x, y),
            )
            &&& after.position == (x, y)
            &&& after.buttons == session.input.buttons
            &&& after.keys == session.input.keys
            &&& after.chars == session.input.chars
        }),
{
}

/// A button is down after a request to press it and up after one to release it, and nothing else
/// changes; the request is sent exactly where it changes something.
pub proof fn buttons_go_down_and_up(
    session: SessionView,
    lines: Seq<Seq<char>>,
    button: MouseButton,
    pressed: bool,
    other: MouseButton,
)
    ensures
        ({
            let outcome = answered(Some(session), lines, Request::MouseButton { button, pressed });
            let after = outcome.0->0.input;
            &&& comes_to(
                session,
                outcome,
                if pressed {
                    Operation::MouseButtonPressed(button)
                } else {
                    Operation::MouseButtonReleased(button)
                },
                session.input.buttons.contains(button) != pressed,
            )
            &&& after.buttons.contains(button) == pressed
            &&& other != button ==> after.buttons.contains(other) == session.input.buttons.contains(
                other,
            )
            &&& after.position == session.input.position
            &&& after.keys == session.input.keys
            &&& after.chars == session.input.chars
        }),
{
}

/// A wheel request is always sent, for the vertical wheel unless the horizontal one is asked for
/// and by as much as it says, and changes nothing that is pressed.
pub proof fn wheels_turn(
    session: SessionView,
    lines: Seq<Seq<char>>,
    delta: i16,
    horizontal: bool,
)
    ensures
        ({
            let outcome = answered(Some(session), lines, Request::Wheel { delta, horizontal });
            &&& comes_to(
                session,
                outcome,
                Operation::WheelRotations { is_vertical: !horizontal, rotation_units: delta },
                true,
            )
            &&& outcome.0->0.input == session.input
        }),
{
}

/// A key is down after a request to press it and up after one to release it, by the lowest byte of
/// its scancode and whether it is an extended one, and nothing else changes. A press is always
/// sent; a release is sent exactly where the key was down.
pub proof fn keys_go_down_and_up(
    session: SessionView,
    lines: Seq<Seq<char>>,
    scancode: u16,
    pressed: bool,
    other: (bool, u8),
)
    ensures
        ({
            let outcome = answered(
                Some(session),
                lines,
                Request::KeyScancode { scancode, pressed },
            );
            let after = outcome.0->0.input;
            let key = (scancode >= 0xe000, (scancode % 256) as u8);
            &&& comes_to(
                session,
                outcome,
                if pressed {
                    Operation::KeyPressed(scancode)
                } else {
                    Operation::KeyReleased(scancode)
                },
                pressed || session.input.keys.contains(key),
            )
            &&& after.keys.contains(key) == pressed
            &&& other != key ==> after.keys.contains(other) == session.input.keys.contains(other)
            &&& after.position == session.input.position
            &&& after.buttons == session.input.buttons
            &&& after.chars == session.input.chars
        }),
{
}

/// The key of a character is down after a request to press it and up after one to release it, and
/// nothing else changes. A press is always sent; a release is sent exactly where the key was down.
pub proof fn characters_go_down_and_up(
    session: SessionView,
    lines: Seq<Seq<char>>,
    ch: char,
    pressed: bool,
    other: char,
)
    ensures
        ({
            let outcome = answered(Some(session), lines, Request::KeyUnicode { ch, pressed });
            let after = outcome.0->0.input;
            &&& comes_to(
                session,
                outcome,
                if pressed {
                    Operation::UnicodeKeyPressed(ch)
                } else {
                    Operation::UnicodeKeyReleased(ch)
                },
                pressed || session.input.chars.contains(ch),
            )
            &&& after.chars.contains(ch) == pressed
            &&& other != ch ==> after.chars.contains(other) == session.input.chars.contains(other)
            &&& after.position == session.input.position
            &&& after.buttons == session.input.buttons
            &&& after.keys == session.input.keys
        }),
{
}

/// Input that was delivered is answered with success, and input that was not with a failure.
pub proof fn deliveries_are_answered_alike(delivered: bool)
    ensures
        delivered <==> delivery_answer(delivered) == ResponseView::Success(PayloadView::Empty),
        !delivered <==> delivery_answer(delivered) == ResponseView::Failure(
            "session input channel is closed"@,
        ),
{
}

// ---------------------------------------------------------------------------
// Properties
// ---------------------------------------------------------------------------

/// The entries in an answer, if it is one of properties.
pub open spec fn answered_entries(step: StepView) -> Seq<EntryView> {
    step->Reply_0->Success_0->Properties_0
}

/// A request for properties is answered with an entry for each property whose key the filter shows
/// and for no other, in ascending order of the keys: the value is that of the property, or the
/// marker where the key names a secret.
pub proof fn properties_are_told(
    session: SessionView,
    lines: Seq<Seq<char>>,
    filter: Option<KeyFilter>,
)
    requires
        session.live.properties.dom().finite(),
    ensures
        ({
            let request = Request::DumpProperties { filter };
            let (after, step) = answered(Some(session), lines, request);
            let properties = session.live.properties;
            let told = answered_entries(step);
            &&& after == Some(session)
            &&& step == StepView::Reply(ResponseView::Success(PayloadView::Properties(told)))
            &&& forall|i: int|
                0 <= i < told.len() ==> {
                    let entry = #[trigger] told[i];
                    &&& properties.contains_key(entry.key)
                    &&& filter matches Some(filter) ==> filter.shows(entry.key)
                    &&& is_secret(entry.key) ==> entry.value == PropertyValue::Str("<redacted>"@)
                    &&& !is_secret(entry.key) ==> entry.value == properties[entry.key]
                    &&& entry.description == description_of(entry.key)
                }
            &&& forall|i: int, j: int|
                #![trigger told[i], told[j]]
                0 <= i < j < told.len() ==> key_before(told[i].key, told[j].key)
        }),
        forall|key: Seq<char>|
            session.live.properties.contains_key(key) && (filter matches Some(filter)
                ==> filter.shows(key)) ==> #[trigger] shows_key(
                answered_entries(
                    answered(Some(session), lines, Request::DumpProperties { filter }).1,
                ),
                key,
            ),
{
    let properties = session.live.properties;
    let told = answered_entries(
        answered(Some(session), lines, Request::DumpProperties { filter }).1,
    );
    dumps_are_complete(properties, filter);
    finite_properties_have_a_listing(properties);
    let all = in_key_order(properties);
    let wanted = |pair: PropertyPair| shown(filter, pair.0);
    let kept = all.filter(wanted);
    lemma_kept_order(all, wanted);
    assert forall|i: int, j: int|
        #![trigger told[i], told[j]]
        0 <= i < j < told.len() implies key_before(told[i].key, told[j].key) by {
        assert(told[i] == entry_of(kept[i]));
        assert(told[j] == entry_of(kept[j]));
    }
    assert forall|i: int| 0 <= i < told.len() implies {
        let entry = #[trigger] told[i];
        &&& properties.contains_key(entry.key)
        &&& filter matches Some(filter) ==> filter.shows(entry.key)
        &&& is_secret(entry.key) ==> entry.value == PropertyValue::Str("<redacted>"@)
        &&& !is_secret(entry.key) ==> entry.value == properties[entry.key]
        &&& entry.description == description_of(entry.key)
    } by {
        assert(told[i] == entry_of(kept[i]));
        assert(shows_key(told, told[i].key));
    }
    assert forall|key: Seq<char>|
        properties.contains_key(key) && (filter matches Some(filter) ==> filter.shows(
            key,
        )) implies #[trigger] shows_key(told, key) by {}
}

proof fn lemma_kept_order(all: Seq<PropertyPair>, wanted: spec_fn(PropertyPair) -> bool)
    requires
        forall|i: int, j: int|
            #![trigger all[i], all[j]]
            0 <= i < j < all.len() ==> key_before(all[i].0, all[j].0),
    ensures
        forall|i: int, j: int|
            #![trigger all.filter(wanted)[i], all.filter(wanted)[j]]
            0 <= i < j < all.filter(wanted).len() ==> key_before(
                all.filter(wanted)[i].0,
                all.filter(wanted)[j].0,
            ),
    decreases all.len(),
{
    reveal(Seq::filter);
    if all.len() > 0 {
        let fewer = all.drop_last();
        let kept = fewer.filter(wanted);
        assert forall|i: int, j: int|
            #![trigger fewer[i], fewer[j]]
            0 <= i < j < fewer.len() implies key_before(fewer[i].0, fewer[j].0) by {
            assert(key_before(all[i].0, all[j].0));
        }
        lemma_kept_order(fewer, wanted);
        assert forall|i: int, j: int|
            #![trigger all.filter(wanted)[i], all.filter(wanted)[j]]
            0 <= i < j < all.filter(wanted).len() implies key_before(
            all.filter(wanted)[i].0,
            all.filter(wanted)[j].0,
        ) by {
            if j < kept.len() {
                assert(all.filter(wanted)[i] == kept[i]);
                assert(all.filter(wanted)[j] == kept[j]);
            } else {
                assert(all.filter(wanted)[i] == kept[i]);
                assert(kept.contains(kept[i]));
                fewer.lemma_filter_contains_rev(wanted, kept[i]);
                let n = choose|n: int| 0 <= n < fewer.len() && fewer[n] == kept[i];
                assert(all[n] == kept[i]);
                assert(all[all.len() - 1] == all.last());
            }
        }
    }
}

/// Five properties are described, each in its own words, and no other is.
pub proof fn five_properties_are_described(key: Seq<char>)
    ensures
        description_of("full address"@) == Some("RDP target host and port"@),
        description_of("username"@) == Some("RDP account user name"@),
        description_of("desktopwidth"@) == Some("negotiated remote framebuffer width in pixels"@),
        description_of("desktopheight"@) == Some(
            "negotiated remote framebuffer height in pixels"@,
        ),
        description_of("ironrdp_colordepth"@) == Some("color depth in bits per pixel (16 or 32)"@),
        key != "full address"@ && key != "username"@ && key != "desktopwidth"@ && key
            != "desktopheight"@ && key != "ironrdp_colordepth"@ ==> description_of(key) is None,
{
    reveal_strlit("full address");
    reveal_strlit("username");
    reveal_strlit("desktopwidth");
    reveal_strlit("desktopheight");
    reveal_strlit("ironrdp_colordepth");
    assert("full address"@[0] == 'f');
    assert("username"@[0] == 'u');
    assert("desktopwidth"@[0] == 'd');
    assert("desktopheight"@[0] == 'd');
    assert("ironrdp_colordepth"@[0] == 'i');
    assert("desktopwidth"@.len() != "desktopheight"@.len());
}

// ---------------------------------------------------------------------------
// Connecting
// ---------------------------------------------------------------------------

/// The daemon knows the field itself: its build, its directory, its platform or its name.
pub open spec fn daemon_knows(field: MissingField) -> bool {
    field is ClientBuild || field is ClientDir || field is Platform || field is ClientName
}

/// A request to connect is refused for what the check of its properties says, and exactly there:
/// with the error of the check, or with the missing fields that the daemon does not know itself.
pub proof fn connecting_is_refused_for_the_check(
    properties: PropertyMap,
    identity: IdentityView,
    fields: Seq<MissingField>,
    at: int,
    error: Seq<char>,
)
    ensures
        properties_checked(properties) == Err::<Seq<MissingField>, Seq<char>>(error)
            ==> connecting(properties, identity) == StepView::Reply(
            ResponseView::Failure("invalid configuration: "@ + error),
        ),
        properties_checked(properties) == Ok::<Seq<MissingField>, Seq<char>>(fields) && 0 <= at
            < fields.len() && !daemon_knows(fields[at]) ==> connecting(properties, identity)
            == StepView::Reply(ResponseView::Failure(missing_fields_text(not_supplied(fields))))
            && not_supplied(fields).contains(fields[at]),
{
    let kept = |field: MissingField| !field.is_identity();
    if 0 <= at < fields.len() && !daemon_knows(fields[at]) {
        fields.lemma_filter_contains(kept, at);
    }
}

/// The fields that the daemon does not know itself are told in their order, and those that it knows
/// are not.
pub proof fn only_unknown_fields_are_told(
    first: Seq<MissingField>,
    field: MissingField,
    second: Seq<MissingField>,
)
    ensures
        not_supplied(first + second) == not_supplied(first) + not_supplied(second),
        not_supplied(seq![field]) == if daemon_knows(field) {
            Seq::empty()
        } else {
            seq![field]
        },
        not_supplied(Seq::empty()) == Seq::<MissingField>::empty(),
{
    let kept = |field: MissingField| !field.is_identity();
    Seq::filter_distributes_over_add(first, second, kept);
    reveal_with_fuel(Seq::filter, 3);
    assert(seq![field].drop_last() =~= Seq::empty());
    assert(not_supplied(seq![field]) =~= if daemon_knows(field) {
        Seq::empty()
    } else {
        seq![field]
    });
}

/// Properties whose check leaves only what the daemon knows itself are handed to the engine with
/// the daemon's identity: a session is opened with the configuration and the destination that the
/// engine makes of them, and it fails for the reason that the engine gives.
pub proof fn what_is_not_refused_is_opened(
    properties: PropertyMap,
    identity: IdentityView,
    fields: Seq<MissingField>,
)
    requires
        properties_checked(properties) == Ok::<Seq<MissingField>, Seq<char>>(fields),
        forall|i: int| 0 <= i < fields.len() ==> daemon_knows(#[trigger] fields[i]),
    ensures
        config_built(properties, identity) matches Err(error) ==> connecting(properties, identity)
            == StepView::Reply(ResponseView::Failure(error)),
        config_built(properties, identity) matches Ok(built) ==> (connecting(
            properties,
            identity,
        ) matches StepView::Open(config, session) && config == built.0 && session.destination
            == built.1 && session.live.properties == properties && session.live.state is Connecting
            && session.live.error is None && session.live.frame_size is None
            && session.input.position == (0u16, 0u16) && session.input.buttons == Set::<
            MouseButton,
        >::empty() && session.input.keys == Set::<(bool, u8)>::empty() && session.input.chars
            == Set::<char>::empty()),
{
    let kept = |field: MissingField| !field.is_identity();
    let left = fields.filter(kept);
    if left.len() > 0 {
        fields.lemma_filter_pred(kept, 0);
        assert(left.contains(left[0]));
        fields.lemma_filter_contains_rev(kept, left[0]);
        let at = choose|at: int| 0 <= at < fields.len() && fields[at] == left[0];
        assert(daemon_knows(fields[at]));
    }
}

/// Opening a session registers secrets of its properties and nothing else, and forgets none that
/// were known; no other step registers or forgets one.
pub proof fn opening_registers_secrets(
    known: Seq<Seq<char>>,
    properties: PropertyMap,
    step: StepView,
)
    ensures
        step !is Open ==> secrets_after(known, properties, step) == known,
        step is Open ==> secrets_after(known, properties, step) == with_secrets(
            known,
            in_key_order(properties),
        ),
        known.is_prefix_of(secrets_after(known, properties, step)),
        forall|i: int|
            known.len() <= i < secrets_after(known, properties, step).len() ==> is_secret_of(
                in_key_order(properties),
                #[trigger] secrets_after(known, properties, step)[i],
            ),
{
    only_secrets_are_registered(known, in_key_order(properties));
    every_secret_is_registered(known, in_key_order(properties));
}

/// Starting a session replaces the current one with it if the engine was started, and tells why if
/// it was not; the version stays either way.
pub proof fn starts_are_answered_alike(
    daemon: DaemonView,
    session: SessionView,
    error: Seq<char>,
)
    ensures
        started(daemon, session, Ok(())).1 == ResponseView::Success(PayloadView::Empty),
        started(daemon, session, Ok(())).0.session == Some(session),
        started(daemon, session, Ok(())).0.version == daemon.version,
        daemon.session_id < u64::MAX ==> started(daemon, session, Ok(())).0.session_id
            == daemon.session_id + 1,
        daemon.session_id == u64::MAX ==> started(daemon, session, Ok(())).0.session_id == 0,
        started(daemon, session, Err(error)) == (
            daemon,
            ResponseView::Failure("failed to spawn session thread: "@ + error),
        ),
{
}

// ---------------------------------------------------------------------------
// Mathematical values
// ---------------------------------------------------------------------------

/// The mathematical values of a daemon, its session and what is known of it have each of their
/// fields, and that of a step what it holds.
pub proof fn daemons_are_what_they_hold(
    daemon: Daemon,
    session: Session,
    config: Config,
    response: Response,
    events: Vec<FastPathInputEvent>,
)
    ensures
        daemon@.version == daemon.version@,
        daemon@.session_id == daemon.session_id,
        daemon@.session is Some <==> daemon.session is Some,
        daemon.session == Some(session) ==> daemon@.session == Some(session@),
        session@.input == input_state(session.input_db),
        session@.destination == session.destination@,
        session@.live.properties == property_map(session.live.properties),
        session@.live.state == session.live.state,
        session@.live.error == opt_text(session.live.error),
        session@.live.frame_size == session.live.frame_size,
        Step::Reply(response)@ == StepView::Reply(response@),
        Step::Close(response)@ == StepView::Close(response@),
        Step::Send(events)@ == StepView::Send(events@),
        (Step::Open { config, session })@ == StepView::Open(config, session@),
{
}

} // verus!

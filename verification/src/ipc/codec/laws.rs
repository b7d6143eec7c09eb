//! How messages are laid out and what is refused, said of the bytes themselves.

use vstd::prelude::*;

use super::request::{
    filter_read, request_bytes, request_fields_read, request_read, requests_read_back,
};
use super::response::{
    destination_read, entries_bytes, entries_read, entry_bytes, entry_read, height_read,
    lines_bytes, lines_read, message_read, response_bytes, response_read, responses_read_back,
    state_of, status_read, width_read,
};
use super::{
    byte_read, message_written, opt_u16_bytes, opt_u16_read, opt_u32_bytes, opt_u32_read, u16_read,
    u32_read,
};
use crate::input::MouseButton;
use crate::ipc::{
    ConnState, EntryView, FilterView, PayloadView, RequestView, ResponseView, StatusView,
};
use crate::properties::{in_key_order, PropertyMap, PropertyPair};
use crate::wire::laws::{
    what_follows_a_property_does_not_matter, what_follows_a_set_does_not_matter,
    what_follows_a_value_does_not_matter,
};
use crate::wire::propertyset::{
    layered, pair_bytes, pair_read, set_bytes, set_fits, sets_read_back,
};
use crate::wire::{
    chars_read_back, le_bytes, le_bytes_read_back, lemma_le_limits, opt_string_bytes,
    opt_string_read, string_bytes, string_read, WireError,
};

verus! {

// ---------------------------------------------------------------------------
// Fields
// ---------------------------------------------------------------------------

/// A number that may be missing is laid out behind a byte that is one, and in its place is a byte
/// that is zero.
pub proof fn missing_numbers_are_laid_out_as_zero(short: u16, long: u32)
    ensures
        opt_u16_bytes(Some(short)) == seq![1u8] + le_bytes(short as nat, 2),
        opt_u16_bytes(None) == seq![0u8],
        opt_u32_bytes(Some(long)) == seq![1u8] + le_bytes(long as nat, 4),
        opt_u32_bytes(None) == seq![0u8],
{
}

/// Numbers are read from as many bytes as they take, whatever follows, and from no fewer.
pub proof fn numbers_are_read_whole(short: u16, long: u32, byte: u8, following: Seq<u8>)
    ensures
        byte_read(seq![byte] + following) == (Ok::<u8, WireError>(byte), 1nat),
        u16_read(le_bytes(short as nat, 2) + following) == (Ok::<u16, WireError>(short), 2nat),
        u32_read(le_bytes(long as nat, 4) + following) == (Ok::<u32, WireError>(long), 4nat),
        following.len() < 1 ==> byte_read(following) == (
            Err::<u8, WireError>(WireError::NotEnoughBytes { received: 0, expected: 1 }),
            0nat,
        ),
        following.len() < 2 ==> u16_read(following) == (
            Err::<u16, WireError>(
                WireError::NotEnoughBytes { received: following.len() as usize, expected: 2 },
            ),
            0nat,
        ),
        following.len() < 4 ==> u32_read(following) == (
            Err::<u32, WireError>(
                WireError::NotEnoughBytes { received: following.len() as usize, expected: 4 },
            ),
            0nat,
        ),
{
    lemma_le_limits();
    le_bytes_read_back(short as nat, 2);
    le_bytes_read_back(long as nat, 4);
    assert((le_bytes(short as nat, 2) + following).take(2) =~= le_bytes(short as nat, 2));
    assert((le_bytes(long as nat, 4) + following).take(4) =~= le_bytes(long as nat, 4));
}

/// A message is written whole where there is room for it and it is not longer than four bytes can
/// say, and not at all otherwise.
pub proof fn messages_are_written_whole(space: nat, bytes: Seq<u8>)
    ensures
        message_written(space, bytes).0 is Ok <==> bytes.len() <= space && bytes.len() <= u32::MAX,
        message_written(space, bytes).0 is Ok ==> message_written(space, bytes).1 == bytes,
        message_written(space, bytes).0 is Err ==> message_written(space, bytes).1.len() == 0,
{
}

// ---------------------------------------------------------------------------
// Requests
// ---------------------------------------------------------------------------

/// Requests are laid out as a tag of their own and their fields in turn.
pub proof fn requests_are_laid_out_so(
    properties: PropertyMap,
    text: Seq<char>,
    substring: Option<Seq<char>>,
    last: Option<u32>,
    x: u16,
    y: u16,
    delta: i16,
    ch: char,
)
    ensures
        request_bytes(RequestView::Connect(properties)) == seq![0u8] + set_bytes(
            in_key_order(properties),
        ),
        request_bytes(RequestView::Disconnect) == seq![1u8],
        request_bytes(RequestView::Status) == seq![2u8],
        request_bytes(RequestView::DumpProperties(None)) == seq![3u8, 0u8],
        request_bytes(RequestView::DumpProperties(Some(FilterView::Substring(text)))) == seq![
            3u8,
            1u8,
        ] + string_bytes(text),
        request_bytes(RequestView::DumpProperties(Some(FilterView::Prefix(text)))) == seq![
            3u8,
            2u8,
        ] + string_bytes(text),
        request_bytes(RequestView::QueryLogs(substring, last)) == seq![4u8] + (opt_string_bytes(
            substring,
        ) + opt_u32_bytes(last)),
        request_bytes(RequestView::Screenshot) == seq![5u8],
        request_bytes(RequestView::MouseMove(x, y)) == seq![6u8] + (le_bytes(x as nat, 2)
            + le_bytes(y as nat, 2)),
        request_bytes(RequestView::Wheel(delta, true)) == seq![8u8] + le_bytes(
            (delta as u16) as nat,
            2,
        ) + seq![1u8],
        request_bytes(RequestView::Wheel(delta, false)) == seq![8u8] + le_bytes(
            (delta as u16) as nat,
            2,
        ) + seq![0u8],
        request_bytes(RequestView::KeyScancode(x, true)) == seq![9u8] + le_bytes(x as nat, 2)
            + seq![1u8],
        request_bytes(RequestView::KeyScancode(x, false)) == seq![9u8] + le_bytes(x as nat, 2)
            + seq![0u8],
        request_bytes(RequestView::KeyUnicode(ch, true)) == seq![10u8] + le_bytes(ch as nat, 4)
            + seq![1u8],
        request_bytes(RequestView::KeyUnicode(ch, false)) == seq![10u8] + le_bytes(ch as nat, 4)
            + seq![0u8],
{
    let number = le_bytes((delta as u16) as nat, 2);
    let code = le_bytes(x as nat, 2);
    let letter = le_bytes(ch as nat, 4);
    assert(seq![8u8] + number + seq![1u8] =~= seq![8u8] + (number + seq![1u8]));
    assert(seq![8u8] + number + seq![0u8] =~= seq![8u8] + (number + seq![0u8]));
    assert(seq![9u8] + code + seq![1u8] =~= seq![9u8] + (code + seq![1u8]));
    assert(seq![9u8] + code + seq![0u8] =~= seq![9u8] + (code + seq![0u8]));
    assert(seq![10u8] + letter + seq![1u8] =~= seq![10u8] + (letter + seq![1u8]));
    assert(seq![10u8] + letter + seq![0u8] =~= seq![10u8] + (letter + seq![0u8]));
    assert(request_bytes(RequestView::DumpProperties(None)) =~= seq![3u8, 0u8]);
    assert(request_bytes(RequestView::DumpProperties(Some(FilterView::Substring(text)))) =~= seq![
        3u8,
        1u8,
    ] + string_bytes(text));
    assert(request_bytes(RequestView::DumpProperties(Some(FilterView::Prefix(text)))) =~= seq![
        3u8,
        2u8,
    ] + string_bytes(text));
}

/// A request for a button is laid out as its tag, the button's and one or zero for down or up.
pub proof fn button_requests_are_laid_out_so(button: MouseButton, pressed: bool)
    ensures
        request_bytes(RequestView::MouseButton(button, pressed)) == seq![
            7u8,
            match button {
                MouseButton::Left => 0u8,
                MouseButton::Middle => 1u8,
                MouseButton::Right => 2u8,
                MouseButton::X1 => 3u8,
                MouseButton::X2 => 4u8,
            },
            if pressed {
                1u8
            } else {
                0u8
            },
        ],
{
}

/// No request has a tag above ten, no button one above four and no filter one above two; and
/// nothing is no request.
pub proof fn unknown_requests_are_refused(tag: u8, following: Seq<u8>)
    ensures
        tag > 10 ==> request_read(seq![tag] + following) == (
            Err::<RequestView, WireError>(
                WireError::InvalidField { field: "request", reason: "unknown tag" },
            ),
            1nat,
        ),
        tag > 4 ==> request_read(seq![7u8, tag] + following) == (
            Err::<RequestView, WireError>(
                WireError::InvalidField { field: "mouse button", reason: "unknown tag" },
            ),
            2nat,
        ),
        tag > 2 ==> request_read(seq![3u8, tag] + following) == (
            Err::<RequestView, WireError>(
                WireError::InvalidField { field: "key filter", reason: "unknown tag" },
            ),
            2nat,
        ),
        request_read(Seq::empty()) == (
            Err::<RequestView, WireError>(WireError::NotEnoughBytes { received: 0, expected: 1 }),
            0nat,
        ),
{
    assert((seq![7u8, tag] + following).skip(1) =~= seq![tag] + following);
    assert((seq![3u8, tag] + following).skip(1) =~= seq![tag] + following);
}

// ---------------------------------------------------------------------------
// Responses
// ---------------------------------------------------------------------------

/// Responses are laid out as a tag of their own and their fields in turn, and entries and lines
/// behind their number, one after the other.
pub proof fn responses_are_laid_out_so(
    message: Seq<char>,
    entries: Seq<EntryView>,
    entry: EntryView,
    lines: Seq<Seq<char>>,
    width: u16,
    height: u16,
)
    ensures
        response_bytes(ResponseView::Failure(message)) == seq![0u8] + string_bytes(message),
        response_bytes(ResponseView::Success(PayloadView::Empty)) == seq![1u8],
        response_bytes(ResponseView::Success(PayloadView::Properties(entries))) == seq![3u8] + (
        le_bytes(entries.len(), 4) + entries_bytes(entries)),
        response_bytes(ResponseView::Success(PayloadView::Logs(lines))) == seq![4u8] + (le_bytes(
            lines.len(),
            4,
        ) + lines_bytes(lines)),
        response_bytes(ResponseView::Success(PayloadView::Screenshot(width, height))) == seq![5u8]
            + (le_bytes(width as nat, 2) + le_bytes(height as nat, 2)),
        entry_bytes(entry) == pair_bytes((entry.key, entry.value)) + opt_string_bytes(
            entry.description,
        ),
{
    assert(response_bytes(ResponseView::Success(PayloadView::Empty)) =~= seq![1u8]);
}

/// A status is laid out as the tag of its response, that of its state, and its other fields in
/// turn.
pub proof fn statuses_are_laid_out_so(status: StatusView)
    ensures
        response_bytes(ResponseView::Success(PayloadView::Status(status))) == seq![
            2u8,
            match status.state {
                ConnState::NoSession => 0u8,
                ConnState::Connecting => 1u8,
                ConnState::Connected => 2u8,
                ConnState::Disconnected => 3u8,
                ConnState::Failed => 4u8,
            },
        ] + (opt_string_bytes(status.destination) + (opt_u16_bytes(status.width) + (opt_u16_bytes(
            status.height,
        ) + opt_string_bytes(status.message)))),
{
    let rest = opt_string_bytes(status.destination) + (opt_u16_bytes(status.width) + (
    opt_u16_bytes(status.height) + opt_string_bytes(status.message)));
    let tag = match status.state {
        ConnState::NoSession => 0u8,
        ConnState::Connecting => 1u8,
        ConnState::Connected => 2u8,
        ConnState::Disconnected => 3u8,
        ConnState::Failed => 4u8,
    };
    lemma_two_tags(2, tag, rest);
}

proof fn lemma_two_tags(first: u8, second: u8, rest: Seq<u8>)
    ensures
        seq![first] + (seq![second] + rest) == seq![first, second] + rest,
{
    assert(seq![first] + (seq![second] + rest) =~= seq![first, second] + rest);
}

/// Entries are laid out one after the other, and so are lines.
pub proof fn entries_and_lines_are_laid_out_in_turn(
    entry: EntryView,
    entries: Seq<EntryView>,
    line: Seq<char>,
    lines: Seq<Seq<char>>,
)
    ensures
        entries_bytes(Seq::empty()) == Seq::<u8>::empty(),
        entries_bytes(seq![entry] + entries) == entry_bytes(entry) + entries_bytes(entries),
        lines_bytes(Seq::empty()) == Seq::<u8>::empty(),
        lines_bytes(seq![line] + lines) == string_bytes(line) + lines_bytes(lines),
{
    assert((seq![entry] + entries).skip(1) =~= entries);
    assert((seq![line] + lines).skip(1) =~= lines);
}

/// No response has a tag above five and no state one above four; and nothing is no response.
pub proof fn unknown_responses_are_refused(tag: u8, following: Seq<u8>)
    ensures
        tag > 5 ==> response_read(seq![tag] + following) == (
            Err::<ResponseView, WireError>(
                WireError::InvalidField { field: "response", reason: "unknown tag" },
            ),
            1nat,
        ),
        tag > 4 ==> response_read(seq![2u8, tag] + following) == (
            Err::<ResponseView, WireError>(
                WireError::InvalidField { field: "connection state", reason: "unknown tag" },
            ),
            2nat,
        ),
        response_read(Seq::empty()) == (
            Err::<ResponseView, WireError>(WireError::NotEnoughBytes { received: 0, expected: 1 }),
            0nat,
        ),
{
    reveal(status_read);
    assert((seq![2u8, tag] + following).skip(1) =~= seq![tag] + following);
}

// ---------------------------------------------------------------------------
// What follows
// ---------------------------------------------------------------------------

proof fn lemma_number_before(bytes: Seq<u8>, following: Seq<u8>)
    ensures
        byte_read(bytes).0 is Ok ==> byte_read(bytes + following) == byte_read(bytes) && byte_read(
            bytes,
        ).1 <= bytes.len(),
        u16_read(bytes).0 is Ok ==> u16_read(bytes + following) == u16_read(bytes) && u16_read(
            bytes,
        ).1 <= bytes.len(),
        u32_read(bytes).0 is Ok ==> u32_read(bytes + following) == u32_read(bytes) && u32_read(
            bytes,
        ).1 <= bytes.len(),
{
    if bytes.len() >= 2 {
        assert((bytes + following).take(2) =~= bytes.take(2));
    }
    if bytes.len() >= 4 {
        assert((bytes + following).take(4) =~= bytes.take(4));
    }
}

proof fn lemma_skip_before(bytes: Seq<u8>, following: Seq<u8>, count: nat)
    requires
        count <= bytes.len(),
    ensures
        (bytes + following).skip(count as int) == bytes.skip(count as int) + following,
{
    assert((bytes + following).skip(count as int) =~= bytes.skip(count as int) + following);
}

proof fn lemma_opt_number_before(bytes: Seq<u8>, following: Seq<u8>)
    ensures
        opt_u16_read(bytes).0 is Ok ==> opt_u16_read(bytes + following) == opt_u16_read(bytes)
            && opt_u16_read(bytes).1 <= bytes.len(),
        opt_u32_read(bytes).0 is Ok ==> opt_u32_read(bytes + following) == opt_u32_read(bytes)
            && opt_u32_read(bytes).1 <= bytes.len(),
{
    what_follows_a_value_does_not_matter(bytes, following);
    if bytes.len() > 0 {
        lemma_skip_before(bytes, following, 1);
        lemma_number_before(bytes.skip(1), following);
    }
}

/// A number that may be missing is there behind any byte but zero, and a flag is set by any byte
/// but zero.
pub proof fn any_byte_but_zero_says_so(
    flag: u8,
    short: u16,
    long: u32,
    ch: char,
    following: Seq<u8>,
)
    requires
        flag != 0,
    ensures
        opt_u16_read(seq![flag] + (le_bytes(short as nat, 2) + following)) == (
            Ok::<Option<u16>, WireError>(Some(short)),
            3nat,
        ),
        opt_u32_read(seq![flag] + (le_bytes(long as nat, 4) + following)) == (
            Ok::<Option<u32>, WireError>(Some(long)),
            5nat,
        ),
        request_read(seq![9u8] + (le_bytes(short as nat, 2) + (seq![flag] + following))) == (
            Ok::<RequestView, WireError>(RequestView::KeyScancode(short, true)),
            4nat,
        ),
        request_read(seq![10u8] + (le_bytes(ch as nat, 4) + (seq![flag] + following))) == (
            Ok::<RequestView, WireError>(RequestView::KeyUnicode(ch, true)),
            6nat,
        ),
{
    let rest = seq![flag] + following;
    numbers_are_read_whole(short, long, flag, following);
    numbers_are_read_whole(short, long, flag, rest);
    chars_read_back(ch, rest);
    lemma_le_limits();
    le_bytes_read_back(short as nat, 2);
    le_bytes_read_back(long as nat, 4);
    le_bytes_read_back(ch as nat, 4);
    lemma_behind(seq![flag], le_bytes(short as nat, 2) + following);
    lemma_behind(seq![flag], le_bytes(long as nat, 4) + following);
    lemma_behind(seq![9u8], le_bytes(short as nat, 2) + rest);
    lemma_behind(seq![10u8], le_bytes(ch as nat, 4) + rest);
    lemma_behind(le_bytes(short as nat, 2), rest);
    lemma_behind(le_bytes(ch as nat, 4), rest);
}

proof fn lemma_behind(first: Seq<u8>, rest: Seq<u8>)
    ensures
        (first + rest).skip(first.len() as int) == rest,
{
    assert((first + rest).skip(first.len() as int) =~= rest);
}

/// A request to connect gives the properties in it, in any order, and where a key comes more than
/// once the value that comes last.
pub proof fn connect_requests_take_properties_in_turn(
    entries: Seq<PropertyPair>,
    following: Seq<u8>,
)
    requires
        set_fits(entries),
    ensures
        request_read(seq![0u8] + (set_bytes(entries) + following)) == (
            Ok::<RequestView, WireError>(
                RequestView::Connect(layered(PropertyMap::empty(), entries)),
            ),
            1 + set_bytes(entries).len(),
        ),
{
    lemma_behind(seq![0u8], set_bytes(entries) + following);
    sets_read_back(entries, following);
}

proof fn lemma_filter_before(bytes: Seq<u8>, following: Seq<u8>)
    requires
        filter_read(bytes).0 is Ok,
    ensures
        filter_read(bytes + following) == filter_read(bytes),
        filter_read(bytes).1 <= bytes.len(),
{
    lemma_number_before(bytes, following);
    lemma_skip_before(bytes, following, 1);
    what_follows_a_value_does_not_matter(bytes.skip(1), following);
}

proof fn lemma_fields_before(tag: u8, bytes: Seq<u8>, following: Seq<u8>)
    requires
        request_fields_read(tag, bytes).0 is Ok,
    ensures
        request_fields_read(tag, bytes + following) == request_fields_read(tag, bytes),
        request_fields_read(tag, bytes).1 <= bytes.len(),
{
    lemma_number_before(bytes, following);
    what_follows_a_value_does_not_matter(bytes, following);
    if tag == 0 {
        what_follows_a_set_does_not_matter(bytes, following);
    } else if tag == 3 {
        lemma_filter_before(bytes, following);
    } else if tag == 4 {
        let count = opt_string_read(bytes).1;
        lemma_skip_before(bytes, following, count);
        lemma_opt_number_before(bytes.skip(count as int), following);
    } else if tag == 6 || tag == 8 || tag == 9 {
        lemma_skip_before(bytes, following, 2);
        lemma_number_before(bytes.skip(2), following);
        what_follows_a_value_does_not_matter(bytes.skip(2), following);
    } else if tag == 7 {
        lemma_skip_before(bytes, following, 1);
        what_follows_a_value_does_not_matter(bytes.skip(1), following);
    } else if tag == 10 {
        lemma_skip_before(bytes, following, 4);
        what_follows_a_value_does_not_matter(bytes.skip(4), following);
    }
}

/// What follows a request that can be read does not matter to it.
pub proof fn what_follows_a_request_does_not_matter(bytes: Seq<u8>, following: Seq<u8>)
    requires
        request_read(bytes).0 is Ok,
    ensures
        request_read(bytes + following) == request_read(bytes),
        request_read(bytes).1 <= bytes.len(),
{
    lemma_number_before(bytes, following);
    lemma_skip_before(bytes, following, 1);
    lemma_fields_before(bytes[0], bytes.skip(1), following);
}

/// A request whose layout is cut off anywhere is not read.
pub proof fn cut_requests_are_not_read(request: RequestView, length: nat)
    requires
        request_bytes(request).len() <= u32::MAX,
        request matches RequestView::Connect(properties) ==> properties.dom().finite(),
        length < request_bytes(request).len(),
    ensures
        request_read(request_bytes(request).take(length as int)).0 is Err,
{
    let whole = request_bytes(request);
    let cut = whole.take(length as int);
    if request_read(cut).0 is Ok {
        what_follows_a_request_does_not_matter(cut, whole.skip(length as int));
        assert(cut + whole.skip(length as int) =~= whole);
        requests_read_back(request, Seq::empty());
        assert(whole + Seq::<u8>::empty() =~= whole);
    }
}

proof fn lemma_entry_before(bytes: Seq<u8>, following: Seq<u8>)
    requires
        entry_read(bytes).0 is Ok,
    ensures
        entry_read(bytes + following) == entry_read(bytes),
        entry_read(bytes).1 <= bytes.len(),
{
    reveal(entry_read);
    let count = pair_read(bytes).1;
    what_follows_a_property_does_not_matter(bytes, following);
    lemma_skip_before(bytes, following, count);
    what_follows_a_value_does_not_matter(bytes.skip(count as int), following);
}

proof fn lemma_entries_before(count: nat, bytes: Seq<u8>, following: Seq<u8>)
    requires
        entries_read(count, bytes).0 is Ok,
    ensures
        entries_read(count, bytes + following) == entries_read(count, bytes),
        entries_read(count, bytes).1 <= bytes.len(),
    decreases count,
{
    if count > 0 {
        let consumed = entry_read(bytes).1;
        lemma_entry_before(bytes, following);
        lemma_skip_before(bytes, following, consumed);
        lemma_entries_before((count - 1) as nat, bytes.skip(consumed as int), following);
    }
}

proof fn lemma_lines_before(count: nat, bytes: Seq<u8>, following: Seq<u8>)
    requires
        lines_read(count, bytes).0 is Ok,
    ensures
        lines_read(count, bytes + following) == lines_read(count, bytes),
        lines_read(count, bytes).1 <= bytes.len(),
    decreases count,
{
    if count > 0 {
        let consumed = string_read(bytes).1;
        what_follows_a_value_does_not_matter(bytes, following);
        lemma_skip_before(bytes, following, consumed);
        lemma_lines_before((count - 1) as nat, bytes.skip(consumed as int), following);
    }
}

proof fn lemma_message_before(
    state: ConnState,
    destination: Option<Seq<char>>,
    width: Option<u16>,
    height: Option<u16>,
    bytes: Seq<u8>,
    following: Seq<u8>,
)
    requires
        message_read(state, destination, width, height, bytes).0 is Ok,
    ensures
        message_read(state, destination, width, height, bytes + following) == message_read(
            state,
            destination,
            width,
            height,
            bytes,
        ),
        message_read(state, destination, width, height, bytes).1 <= bytes.len(),
{
    reveal(message_read);
    what_follows_a_value_does_not_matter(bytes, following);
}

proof fn lemma_height_before(
    state: ConnState,
    destination: Option<Seq<char>>,
    width: Option<u16>,
    bytes: Seq<u8>,
    following: Seq<u8>,
)
    requires
        height_read(state, destination, width, bytes).0 is Ok,
    ensures
        height_read(state, destination, width, bytes + following) == height_read(
            state,
            destination,
            width,
            bytes,
        ),
        height_read(state, destination, width, bytes).1 <= bytes.len(),
{
    reveal(height_read);
    lemma_opt_number_before(bytes, following);
    if let (Ok(height), count) = opt_u16_read(bytes) {
        let rest = bytes.skip(count as int);
        lemma_skip_before(bytes, following, count);
        lemma_message_before(state, destination, width, height, rest, following);
    }
}

proof fn lemma_width_before(
    state: ConnState,
    destination: Option<Seq<char>>,
    bytes: Seq<u8>,
    following: Seq<u8>,
)
    requires
        width_read(state, destination, bytes).0 is Ok,
    ensures
        width_read(state, destination, bytes + following) == width_read(state, destination, bytes),
        width_read(state, destination, bytes).1 <= bytes.len(),
{
    reveal(width_read);
    lemma_opt_number_before(bytes, following);
    if let (Ok(width), count) = opt_u16_read(bytes) {
        lemma_skip_before(bytes, following, count);
        lemma_height_before(state, destination, width, bytes.skip(count as int), following);
    }
}

proof fn lemma_destination_before(state: ConnState, bytes: Seq<u8>, following: Seq<u8>)
    requires
        destination_read(state, bytes).0 is Ok,
    ensures
        destination_read(state, bytes + following) == destination_read(state, bytes),
        destination_read(state, bytes).1 <= bytes.len(),
{
    reveal(destination_read);
    what_follows_a_value_does_not_matter(bytes, following);
    if let (Ok(destination), count) = opt_string_read(bytes) {
        lemma_skip_before(bytes, following, count);
        lemma_width_before(state, destination, bytes.skip(count as int), following);
    }
}

proof fn lemma_status_before(bytes: Seq<u8>, following: Seq<u8>)
    requires
        status_read(bytes).0 is Ok,
    ensures
        status_read(bytes + following) == status_read(bytes),
        status_read(bytes).1 <= bytes.len(),
{
    reveal(status_read);
    lemma_number_before(bytes, following);
    lemma_skip_before(bytes, following, 1);
    if let Ok(state) = state_of(bytes[0]) {
        lemma_destination_before(state, bytes.skip(1), following);
    }
}

/// What follows a response that can be read does not matter to it.
pub proof fn what_follows_a_response_does_not_matter(bytes: Seq<u8>, following: Seq<u8>)
    requires
        response_read(bytes).0 is Ok,
    ensures
        response_read(bytes + following) == response_read(bytes),
        response_read(bytes).1 <= bytes.len(),
{
    let tag = bytes[0];
    let rest = bytes.skip(1);
    lemma_number_before(bytes, following);
    lemma_skip_before(bytes, following, 1);
    lemma_number_before(rest, following);
    what_follows_a_value_does_not_matter(rest, following);
    if tag == 2 {
        lemma_status_before(rest, following);
    } else if tag == 3 {
        lemma_skip_before(rest, following, 4);
        lemma_entries_before(u32_read(rest).0->Ok_0 as nat, rest.skip(4), following);
    } else if tag == 4 {
        lemma_skip_before(rest, following, 4);
        lemma_lines_before(u32_read(rest).0->Ok_0 as nat, rest.skip(4), following);
    } else if tag == 5 {
        lemma_skip_before(rest, following, 2);
        lemma_number_before(rest.skip(2), following);
    }
}

/// A response whose layout is cut off anywhere is not read.
pub proof fn cut_responses_are_not_read(response: ResponseView, length: nat)
    requires
        response_bytes(response).len() <= u32::MAX,
        length < response_bytes(response).len(),
    ensures
        response_read(response_bytes(response).take(length as int)).0 is Err,
{
    let whole = response_bytes(response);
    let cut = whole.take(length as int);
    if response_read(cut).0 is Ok {
        what_follows_a_response_does_not_matter(cut, whole.skip(length as int));
        assert(cut + whole.skip(length as int) =~= whole);
        responses_read_back(response, Seq::empty());
        assert(whole + Seq::<u8>::empty() =~= whole);
    }
}

} // verus!

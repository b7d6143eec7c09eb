//! Responses, in the form in which they travel.

use ironrdp_core::{ReadCursor, WriteCursor};
use vstd::prelude::*;

use crate::ipc::codec::{
    byte_read, ensure_message, get_byte, get_opt_text, get_opt_u16, get_u16, get_u32, in_turn,
    lemma_concatenated, lemma_opt_text_reads_back, lemma_opt_u16_reads_back, lemma_u16_reads_back,
    lemma_u32_reads_back, message_written, opt_text_size, opt_u16_bytes, opt_u16_read,
    opt_u16_size, plus, put_opt_text, put_opt_u16, put_text, sized, text_size, u16_read, u32_read,
    unknown_tag,
};
use crate::ipc::{
    texts, ConnState, EntryView, Payload, PayloadView, PropertyDump, PropertyEntry, Response,
    ResponseView, StatusInfo, StatusView,
};
use crate::properties::{PropValue, PropertyPair, PropertyValue};
use crate::wire::propertyset::{
    lemma_pair_length, lemma_pair_read_within, lemma_pair_reads_back, lemma_string_read_within,
    pair_bytes, pair_read, read_pair, write_pair,
};
use crate::wire::{
    advanced, clamped, le_bytes, lemma_advanced, lemma_le_bytes_len, lemma_wrote,
    lemma_wrote_nothing, opt_string_bytes, opt_string_read, opt_string_size_is_what_is_written,
    opt_text, read_buffer, read_position, read_string, room, string_bytes, string_read,
    string_size_is_what_is_written, strings_read_back, unread, wrote, WireError,
};

verus! {

// ---------------------------------------------------------------------------
// Layout
// ---------------------------------------------------------------------------

/// The tag of a state.
pub open spec fn state_tag(state: ConnState) -> u8 {
    match state {
        ConnState::NoSession => 0,
        ConnState::Connecting => 1,
        ConnState::Connected => 2,
        ConnState::Disconnected => 3,
        ConnState::Failed => 4,
    }
}

/// One property, as it may be shown: its key, its value, then what it is.
pub open spec fn entry_bytes(entry: EntryView) -> Seq<u8> {
    pair_bytes((entry.key, entry.value)) + opt_string_bytes(entry.description)
}

/// Properties, as they may be shown, one after the other.
pub open spec fn entries_bytes(entries: Seq<EntryView>) -> Seq<u8>
    decreases entries.len(),
{
    if entries.len() == 0 {
        Seq::empty()
    } else {
        entry_bytes(entries[0]) + entries_bytes(entries.skip(1))
    }
}

/// Lines, one after the other.
pub open spec fn lines_bytes(lines: Seq<Seq<char>>) -> Seq<u8>
    decreases lines.len(),
{
    if lines.len() == 0 {
        Seq::empty()
    } else {
        string_bytes(lines[0]) + lines_bytes(lines.skip(1))
    }
}

/// The fields of a status, one after the other.
pub open spec fn status_bytes(status: StatusView) -> Seq<u8> {
    seq![state_tag(status.state)] + (opt_string_bytes(status.destination) + (opt_u16_bytes(
        status.width,
    ) + (opt_u16_bytes(status.height) + opt_string_bytes(status.message))))
}

/// The tag of a response.
pub open spec fn response_tag(response: ResponseView) -> u8 {
    match response {
        ResponseView::Failure(_) => 0,
        ResponseView::Success(PayloadView::Empty) => 1,
        ResponseView::Success(PayloadView::Status(_)) => 2,
        ResponseView::Success(PayloadView::Properties(_)) => 3,
        ResponseView::Success(PayloadView::Logs(_)) => 4,
        ResponseView::Success(PayloadView::Screenshot(_, _)) => 5,
    }
}

/// The fields of a response, one after the other.
pub open spec fn response_fields(response: ResponseView) -> Seq<u8> {
    match response {
        ResponseView::Failure(message) => string_bytes(message),
        ResponseView::Success(PayloadView::Empty) => Seq::empty(),
        ResponseView::Success(PayloadView::Status(status)) => status_bytes(status),
        ResponseView::Success(PayloadView::Properties(entries)) => le_bytes(entries.len(), 4)
            + entries_bytes(entries),
        ResponseView::Success(PayloadView::Logs(lines)) => le_bytes(lines.len(), 4) + lines_bytes(
            lines,
        ),
        ResponseView::Success(PayloadView::Screenshot(width, height)) => le_bytes(width as nat, 2)
            + le_bytes(height as nat, 2),
    }
}

/// A response: its tag, then its fields.
pub open spec fn response_bytes(response: ResponseView) -> Seq<u8> {
    seq![response_tag(response)] + response_fields(response)
}

// ---------------------------------------------------------------------------
// Writing
// ---------------------------------------------------------------------------

fn entry_size(entry: &PropertyEntry) -> (size: Option<usize>)
    ensures
        size == sized(entry_bytes(entry@).len()),
{
    proof {
        lemma_pair_length((entry.key@, entry.value@));
        string_size_is_what_is_written(entry.key@);
        if let PropertyValue::Str(text) = entry.value@ {
            string_size_is_what_is_written(text);
        }
    }
    let value: Option<usize> = match &entry.value {
        PropValue::Int(_) => Some(9),
        PropValue::Str(value) => plus(Some(1), text_size(value.as_str())),
    };
    plus(plus(text_size(entry.key.as_str()), value), opt_text_size(&entry.description))
}

fn entries_size(entries: &Vec<PropertyEntry>) -> (size: Option<usize>)
    ensures
        size == sized(
            4 + entries_bytes(entries@.map_values(|entry: PropertyEntry| entry@)).len(),
        ),
{
    let ghost all = entries@.map_values(|entry: PropertyEntry| entry@);
    let mut size: usize = 4;
    assert(all.skip(0) =~= all);
    for i in 0..entries.len()
        invariant
            all == entries@.map_values(|entry: PropertyEntry| entry@),
            4 + entries_bytes(all).len() == size + entries_bytes(all.skip(i as int)).len(),
    {
        assert(all.skip(i as int)[0] == entries@[i as int]@);
        assert(all.skip(i as int).skip(1) =~= all.skip(i + 1));
        match plus(Some(size), entry_size(&entries[i])) {
            Some(sum) => {
                size = sum;
            },
            None => {
                return None;
            },
        }
    }
    Some(size)
}

fn lines_size(lines: &Vec<String>) -> (size: Option<usize>)
    ensures
        size == sized(4 + lines_bytes(texts(lines@)).len()),
{
    let ghost all = texts(lines@);
    let mut size: usize = 4;
    assert(all.skip(0) =~= all);
    for i in 0..lines.len()
        invariant
            all == texts(lines@),
            4 + lines_bytes(all).len() == size + lines_bytes(all.skip(i as int)).len(),
    {
        assert(all.skip(i as int)[0] == lines@[i as int]@);
        assert(all.skip(i as int).skip(1) =~= all.skip(i + 1));
        match plus(Some(size), text_size(lines[i].as_str())) {
            Some(sum) => {
                size = sum;
            },
            None => {
                return None;
            },
        }
    }
    Some(size)
}

fn response_fields_size(response: &Response) -> (size: Option<usize>)
    ensures
        size == sized(response_fields(response@).len()),
{
    match response {
        Response::Failure(message) => text_size(message.as_str()),
        Response::Success(Payload::Empty) => Some(0),
        Response::Success(Payload::Status(status)) => plus(
            Some(1),
            plus(
                opt_text_size(&status.destination),
                plus(
                    opt_u16_size(status.width),
                    plus(opt_u16_size(status.height), opt_text_size(&status.message)),
                ),
            ),
        ),
        Response::Success(Payload::Properties(dump)) => {
            proof {
                lemma_le_bytes_len(dump@.len(), 4);
            }
            entries_size(&dump.entries)
        },
        Response::Success(Payload::Logs(lines)) => {
            proof {
                lemma_le_bytes_len(texts(lines@).len(), 4);
            }
            lines_size(lines)
        },
        Response::Success(Payload::Screenshot { width, height }) => {
            proof {
                lemma_le_bytes_len(*width as nat, 2);
                lemma_le_bytes_len(*height as nat, 2);
            }
            Some(4)
        },
    }
}

/// Size on the wire of a response.
pub fn response_size(response: &Response) -> (size: usize)
    ensures
        size == clamped(response_bytes(response@).len()),
{
    match plus(Some(1), response_fields_size(response)) {
        Some(size) => size,
        None => usize::MAX,
    }
}

fn put_status(status: &StatusInfo, dst: &mut WriteCursor<'_>)
    requires
        status_bytes(status@).len() <= room(*old(dst)),
        status_bytes(status@).len() <= u32::MAX,
    ensures
        wrote(*old(dst), *final(dst), status_bytes(status@)),
{
    let ghost first = *dst;
    let tag: u8 = match status.state {
        ConnState::NoSession => 0,
        ConnState::Connecting => 1,
        ConnState::Connected => 2,
        ConnState::Disconnected => 3,
        ConnState::Failed => 4,
    };
    let ghost destination = opt_string_bytes(opt_text(status.destination));
    let ghost width = opt_u16_bytes(status.width);
    let ghost height = opt_u16_bytes(status.height);
    let ghost message = opt_string_bytes(opt_text(status.message));
    dst.write_u8(tag);
    let ghost second = *dst;
    put_opt_text(dst, &status.destination);
    let ghost third = *dst;
    put_opt_u16(dst, status.width);
    let ghost fourth = *dst;
    put_opt_u16(dst, status.height);
    let ghost fifth = *dst;
    put_opt_text(dst, &status.message);
    proof {
        lemma_wrote(fourth, fifth, *dst, height, message);
        lemma_wrote(third, fourth, *dst, width, height + message);
        lemma_wrote(second, third, *dst, destination, width + (height + message));
        lemma_wrote(first, second, *dst, seq![tag], destination + (width + (height + message)));
    }
}

fn put_entry(entry: &PropertyEntry, dst: &mut WriteCursor<'_>)
    requires
        entry_bytes(entry@).len() <= room(*old(dst)),
        entry_bytes(entry@).len() <= u32::MAX,
    ensures
        wrote(*old(dst), *final(dst), entry_bytes(entry@)),
{
    let ghost first = *dst;
    let ghost pair = (entry.key@, entry.value@);
    proof {
        lemma_pair_length(pair);
    }
    let _ = write_pair(dst, &entry.key, &entry.value);
    let ghost second = *dst;
    put_opt_text(dst, &entry.description);
    proof {
        lemma_wrote(
            first,
            second,
            *dst,
            pair_bytes(pair),
            opt_string_bytes(opt_text(entry.description)),
        );
    }
}

proof fn lemma_entries_count(entries: Seq<EntryView>)
    ensures
        entries.len() <= entries_bytes(entries).len(),
    decreases entries.len(),
{
    if entries.len() > 0 {
        opt_string_size_is_what_is_written(entries[0].description);
        lemma_entries_count(entries.skip(1));
    }
}

proof fn lemma_lines_count(lines: Seq<Seq<char>>)
    ensures
        lines.len() <= lines_bytes(lines).len(),
    decreases lines.len(),
{
    if lines.len() > 0 {
        string_size_is_what_is_written(lines[0]);
        lemma_lines_count(lines.skip(1));
    }
}

fn put_entries(entries: &Vec<PropertyEntry>, dst: &mut WriteCursor<'_>)
    requires
        ({
            let bytes = entries_bytes(entries@.map_values(|entry: PropertyEntry| entry@));
            4 + bytes.len() <= room(*old(dst)) && 4 + bytes.len() <= u32::MAX
        }),
    ensures
        ({
            let all = entries@.map_values(|entry: PropertyEntry| entry@);
            wrote(*old(dst), *final(dst), le_bytes(all.len(), 4) + entries_bytes(all))
        }),
{
    let ghost first = *dst;
    let ghost all = entries@.map_values(|entry: PropertyEntry| entry@);
    let ghost whole = le_bytes(all.len(), 4) + entries_bytes(all);
    let ghost mut written = le_bytes(all.len(), 4);
    proof {
        lemma_entries_count(all);
        lemma_le_bytes_len(all.len(), 4);
    }
    dst.write_u32(entries.len() as u32);
    assert(all.skip(0) =~= all);
    for i in 0..entries.len()
        invariant
            all == entries@.map_values(|entry: PropertyEntry| entry@),
            whole.len() <= room(first),
            whole.len() <= u32::MAX,
            whole == written + entries_bytes(all.skip(i as int)),
            wrote(first, *dst, written),
    {
        let ghost before = *dst;
        let ghost rest = all.skip(i as int);
        assert(rest[0] == entries@[i as int]@);
        assert(rest.skip(1) =~= all.skip(i + 1));
        put_entry(&entries[i], dst);
        proof {
            lemma_wrote(first, before, *dst, written, entry_bytes(rest[0]));
            assert(written + entries_bytes(rest) =~= written + entry_bytes(rest[0])
                + entries_bytes(rest.skip(1)));
            written = written + entry_bytes(rest[0]);
        }
    }
    assert(whole =~= written);
}

fn put_lines(lines: &Vec<String>, dst: &mut WriteCursor<'_>)
    requires
        4 + lines_bytes(texts(lines@)).len() <= room(*old(dst)),
        4 + lines_bytes(texts(lines@)).len() <= u32::MAX,
    ensures
        wrote(
            *old(dst),
            *final(dst),
            le_bytes(texts(lines@).len(), 4) + lines_bytes(texts(lines@)),
        ),
{
    let ghost first = *dst;
    let ghost all = texts(lines@);
    let ghost whole = le_bytes(all.len(), 4) + lines_bytes(all);
    let ghost mut written = le_bytes(all.len(), 4);
    proof {
        lemma_lines_count(all);
        lemma_le_bytes_len(all.len(), 4);
    }
    dst.write_u32(lines.len() as u32);
    assert(all.skip(0) =~= all);
    for i in 0..lines.len()
        invariant
            all == texts(lines@),
            whole.len() <= room(first),
            whole.len() <= u32::MAX,
            whole == written + lines_bytes(all.skip(i as int)),
            wrote(first, *dst, written),
    {
        let ghost before = *dst;
        let ghost rest = all.skip(i as int);
        assert(rest[0] == lines@[i as int]@);
        assert(rest.skip(1) =~= all.skip(i + 1));
        put_text(dst, lines[i].as_str());
        proof {
            lemma_wrote(first, before, *dst, written, string_bytes(rest[0]));
            assert(written + lines_bytes(rest) =~= written + string_bytes(rest[0]) + lines_bytes(
                rest.skip(1),
            ));
            written = written + string_bytes(rest[0]);
        }
    }
    assert(whole =~= written);
}

/// Writes the fields of a response where there is room for them.
fn put_response_fields(response: &Response, dst: &mut WriteCursor<'_>)
    requires
        response_fields(response@).len() <= room(*old(dst)),
        response_fields(response@).len() <= u32::MAX,
    ensures
        wrote(*old(dst), *final(dst), response_fields(response@)),
{
    let ghost first = *dst;
    proof {
        lemma_wrote_nothing(first);
    }
    match response {
        Response::Failure(message) => put_text(dst, message.as_str()),
        Response::Success(Payload::Empty) => {},
        Response::Success(Payload::Status(status)) => put_status(status, dst),
        Response::Success(Payload::Properties(dump)) => {
            proof {
                lemma_le_bytes_len(dump@.len(), 4);
            }
            put_entries(&dump.entries, dst)
        },
        Response::Success(Payload::Logs(lines)) => {
            proof {
                lemma_le_bytes_len(texts(lines@).len(), 4);
            }
            put_lines(lines, dst)
        },
        Response::Success(Payload::Screenshot { width, height }) => {
            proof {
                lemma_le_bytes_len(*width as nat, 2);
                lemma_le_bytes_len(*height as nat, 2);
            }
            dst.write_u16(*width);
            let ghost second = *dst;
            dst.write_u16(*height);
            proof {
                lemma_wrote(
                    first,
                    second,
                    *dst,
                    le_bytes(*width as nat, 2),
                    le_bytes(*height as nat, 2),
                );
            }
        },
    }
}

/// Writes a response.
pub fn write_response(response: &Response, dst: &mut WriteCursor<'_>) -> (outcome: Result<
    (),
    WireError,
>)
    ensures
        outcome == message_written(room(*old(dst)), response_bytes(response@)).0,
        wrote(
            *old(dst),
            *final(dst),
            message_written(room(*old(dst)), response_bytes(response@)).1,
        ),
{
    let ghost first = *dst;
    proof {
        lemma_wrote_nothing(first);
    }
    let received: usize = dst.remaining().len();
    let size: Option<usize> = plus(Some(1), response_fields_size(response));
    assert(size == sized(response_bytes(response@).len()));
    match ensure_message(received, size) {
        Ok(()) => {},
        Err(error) => {
            return Err(error);
        },
    }
    let tag: u8 = match response {
        Response::Failure(_) => 0,
        Response::Success(Payload::Empty) => 1,
        Response::Success(Payload::Status(_)) => 2,
        Response::Success(Payload::Properties(_)) => 3,
        Response::Success(Payload::Logs(_)) => 4,
        Response::Success(Payload::Screenshot { width, height }) => 5,
    };
    dst.write_u8(tag);
    let ghost second = *dst;
    put_response_fields(response, dst);
    proof {
        lemma_wrote(first, second, *dst, seq![tag], response_fields(response@));
    }
    Ok(())
}

// ---------------------------------------------------------------------------
// Reading
// ---------------------------------------------------------------------------

/// The state with this tag.
pub open spec fn state_of(tag: u8) -> Result<ConnState, WireError> {
    if tag == 0 {
        Ok(ConnState::NoSession)
    } else if tag == 1 {
        Ok(ConnState::Connecting)
    } else if tag == 2 {
        Ok(ConnState::Connected)
    } else if tag == 3 {
        Ok(ConnState::Disconnected)
    } else if tag == 4 {
        Ok(ConnState::Failed)
    } else {
        unknown_tag("connection state")
    }
}

/// The property at the start of `bytes`, as it may be shown, and how many bytes are consumed in
/// reading it.
#[verifier::opaque]
pub open spec fn entry_read(bytes: Seq<u8>) -> (Result<EntryView, WireError>, nat) {
    in_turn(
        bytes,
        pair_read(bytes),
        |pair: PropertyPair, rest: Seq<u8>|
            in_turn(
                rest,
                opt_string_read(rest),
                |description: Option<Seq<char>>, rest: Seq<u8>|
                    (
                        Ok::<_, WireError>(
                            EntryView { key: pair.0, value: pair.1, description },
                        ),
                        0nat,
                    ),
            ),
    )
}

/// The first `count` properties in `bytes`, as they may be shown, and how many bytes are consumed
/// in reading them.
pub open spec fn entries_read(count: nat, bytes: Seq<u8>) -> (
    Result<Seq<EntryView>, WireError>,
    nat,
)
    decreases count,
{
    if count == 0 {
        (Ok(Seq::empty()), 0)
    } else {
        match entry_read(bytes) {
            (Err(error), consumed) => (Err(error), consumed),
            (Ok(entry), consumed) => match entries_read(
                (count - 1) as nat,
                bytes.skip(consumed as int),
            ) {
                (Err(error), more) => (Err(error), consumed + more),
                (Ok(entries), more) => (Ok(seq![entry] + entries), consumed + more),
            },
        }
    }
}

/// The first `count` lines in `bytes`, and how many bytes are consumed in reading them.
pub open spec fn lines_read(count: nat, bytes: Seq<u8>) -> (
    Result<Seq<Seq<char>>, WireError>,
    nat,
)
    decreases count,
{
    if count == 0 {
        (Ok(Seq::empty()), 0)
    } else {
        match string_read(bytes) {
            (Err(error), consumed) => (Err(error), consumed),
            (Ok(line), consumed) => match lines_read(
                (count - 1) as nat,
                bytes.skip(consumed as int),
            ) {
                (Err(error), more) => (Err(error), consumed + more),
                (Ok(lines), more) => (Ok(seq![line] + lines), consumed + more),
            },
        }
    }
}

/// The rest of a status at the start of `bytes`, from its message on, and how many bytes are
/// consumed in reading it.
#[verifier::opaque]
pub open spec fn message_read(
    state: ConnState,
    destination: Option<Seq<char>>,
    width: Option<u16>,
    height: Option<u16>,
    bytes: Seq<u8>,
) -> (Result<StatusView, WireError>, nat) {
    in_turn(
        bytes,
        opt_string_read(bytes),
        |message: Option<Seq<char>>, rest: Seq<u8>|
            (
                Ok::<_, WireError>(StatusView { state, destination, width, height, message }),
                0nat,
            ),
    )
}

/// The rest of a status at the start of `bytes`, from its height on, and how many bytes are
/// consumed in reading it.
#[verifier::opaque]
pub open spec fn height_read(
    state: ConnState,
    destination: Option<Seq<char>>,
    width: Option<u16>,
    bytes: Seq<u8>,
) -> (Result<StatusView, WireError>, nat) {
    in_turn(
        bytes,
        opt_u16_read(bytes),
        |height: Option<u16>, rest: Seq<u8>| message_read(state, destination, width, height, rest),
    )
}

/// The rest of a status at the start of `bytes`, from its width on, and how many bytes are consumed
/// in reading it.
#[verifier::opaque]
pub open spec fn width_read(
    state: ConnState,
    destination: Option<Seq<char>>,
    bytes: Seq<u8>,
) -> (Result<StatusView, WireError>, nat) {
    in_turn(
        bytes,
        opt_u16_read(bytes),
        |width: Option<u16>, rest: Seq<u8>| height_read(state, destination, width, rest),
    )
}

/// The rest of a status at the start of `bytes`, from its destination on, and how many bytes are
/// consumed in reading it.
#[verifier::opaque]
pub open spec fn destination_read(state: ConnState, bytes: Seq<u8>) -> (
    Result<StatusView, WireError>,
    nat,
) {
    in_turn(
        bytes,
        opt_string_read(bytes),
        |destination: Option<Seq<char>>, rest: Seq<u8>| width_read(state, destination, rest),
    )
}

/// The status at the start of `bytes`, and how many bytes are consumed in reading it.
#[verifier::opaque]
pub open spec fn status_read(bytes: Seq<u8>) -> (Result<StatusView, WireError>, nat) {
    in_turn(
        bytes,
        byte_read(bytes),
        |tag: u8, rest: Seq<u8>|
            match state_of(tag) {
                Err(error) => (Err(error), 0nat),
                Ok(state) => destination_read(state, rest),
            },
    )
}

/// The response with this tag whose fields stand at the start of `bytes`, and how many bytes are
/// consumed in reading them.
pub open spec fn response_fields_read(tag: u8, bytes: Seq<u8>) -> (
    Result<ResponseView, WireError>,
    nat,
) {
    if tag == 0 {
        in_turn(
            bytes,
            string_read(bytes),
            |message: Seq<char>, rest: Seq<u8>|
                (Ok::<_, WireError>(ResponseView::Failure(message)), 0nat),
        )
    } else if tag == 1 {
        (Ok(ResponseView::Success(PayloadView::Empty)), 0)
    } else if tag == 2 {
        in_turn(
            bytes,
            status_read(bytes),
            |status: StatusView, rest: Seq<u8>|
                (Ok::<_, WireError>(ResponseView::Success(PayloadView::Status(status))), 0nat),
        )
    } else if tag == 3 {
        in_turn(
            bytes,
            u32_read(bytes),
            |count: u32, rest: Seq<u8>|
                in_turn(
                    rest,
                    entries_read(count as nat, rest),
                    |entries: Seq<EntryView>, rest: Seq<u8>|
                        (
                            Ok::<_, WireError>(
                                ResponseView::Success(PayloadView::Properties(entries)),
                            ),
                            0nat,
                        ),
                ),
        )
    } else if tag == 4 {
        in_turn(
            bytes,
            u32_read(bytes),
            |count: u32, rest: Seq<u8>|
                in_turn(
                    rest,
                    lines_read(count as nat, rest),
                    |lines: Seq<Seq<char>>, rest: Seq<u8>|
                        (
                            Ok::<_, WireError>(ResponseView::Success(PayloadView::Logs(lines))),
                            0nat,
                        ),
                ),
        )
    } else if tag == 5 {
        in_turn(
            bytes,
            u16_read(bytes),
            |width: u16, rest: Seq<u8>|
                in_turn(
                    rest,
                    u16_read(rest),
                    |height: u16, rest: Seq<u8>|
                        (
                            Ok::<_, WireError>(
                                ResponseView::Success(PayloadView::Screenshot(width, height)),
                            ),
                            0nat,
                        ),
                ),
        )
    } else {
        (unknown_tag("response"), 0)
    }
}

/// The response at the start of `bytes`, and how many bytes are consumed in reading it.
pub open spec fn response_read(bytes: Seq<u8>) -> (Result<ResponseView, WireError>, nat) {
    in_turn(
        bytes,
        byte_read(bytes),
        |tag: u8, rest: Seq<u8>| response_fields_read(tag, rest),
    )
}

/// The mathematical value of a response that was read.
pub open spec fn read_response_view(outcome: Result<Response, WireError>) -> Result<
    ResponseView,
    WireError,
> {
    match outcome {
        Ok(response) => Ok(response@),
        Err(error) => Err(error),
    }
}

fn get_entry(src: &mut ReadCursor<'_>) -> (outcome: Result<PropertyEntry, WireError>)
    requires
        read_position(*old(src)) <= read_buffer(*old(src)).len(),
    ensures
        entry_read(unread(*old(src))).0 == match outcome {
            Ok(entry) => Ok::<EntryView, WireError>(entry@),
            Err(error) => Err(error),
        },
        advanced(*old(src), *final(src), entry_read(unread(*old(src))).1),
        outcome is Ok ==> unread(*final(src)) == unread(*old(src)).skip(
            entry_read(unread(*old(src))).1 as int,
        ) && read_position(*final(src)) <= read_buffer(*final(src)).len(),
{
    let ghost first = *src;
    proof {
        reveal(entry_read);
        lemma_pair_read_within(unread(first));
    }
    let (key, value) = match read_pair(src) {
        Err(error) => {
            return Err(error);
        },
        Ok(pair) => pair,
    };
    proof {
        lemma_advanced(first, *src, pair_read(unread(first)).1);
    }
    match get_opt_text(src) {
        Err(error) => Err(error),
        Ok(description) => {
            assert(unread(*src) =~= unread(first).skip(entry_read(unread(first)).1 as int));
            Ok(PropertyEntry { key, value, description })
        },
    }
}

fn get_entries(count: u32, src: &mut ReadCursor<'_>) -> (outcome: Result<
    Vec<PropertyEntry>,
    WireError,
>)
    requires
        read_position(*old(src)) <= read_buffer(*old(src)).len(),
    ensures
        entries_read(count as nat, unread(*old(src))).0 == match outcome {
            Ok(entries) => Ok::<Seq<EntryView>, WireError>(
                entries@.map_values(|entry: PropertyEntry| entry@),
            ),
            Err(error) => Err(error),
        },
        advanced(*old(src), *final(src), entries_read(count as nat, unread(*old(src))).1),
{
    let ghost first = *src;
    let ghost expected = entries_read(count as nat, unread(first));
    let ghost mut consumed: nat = 0;
    let mut entries: Vec<PropertyEntry> = Vec::new();
    let mut left: u32 = count;
    let ghost shown = |entry: PropertyEntry| entry@;
    assert(entries@.map_values(shown) =~= Seq::empty());
    assert(expected.0 matches Ok(all) ==> entries@.map_values(shown) + all =~= all);
    while left > 0
        invariant
            shown == (|entry: PropertyEntry| entry@),
            first == *old(src),
            expected == entries_read(count as nat, unread(first)),
            advanced(first, *src, consumed),
            read_position(*src) <= read_buffer(*src).len(),
            expected == match entries_read(left as nat, unread(*src)) {
                (Err(error), more) => (Err::<Seq<EntryView>, WireError>(error), consumed + more),
                (Ok(rest), more) => (Ok(entries@.map_values(shown) + rest), consumed + more),
            },
        decreases left,
    {
        let ghost before = *src;
        let ghost sofar = entries@;
        let entry: PropertyEntry = match get_entry(src) {
            Err(error) => {
                return Err(error);
            },
            Ok(entry) => entry,
        };
        let ghost read = entry@;
        entries.push(entry);
        proof {
            assert(entries@.map_values(shown) =~= sofar.map_values(shown).push(read));
            if let (Ok(rest), more) = entries_read((left - 1) as nat, unread(*src)) {
                assert(sofar.map_values(shown) + (seq![read] + rest) =~= sofar.map_values(
                    shown,
                ).push(read) + rest);
            }
            consumed = consumed + entry_read(unread(before)).1;
        }
        left -= 1;
    }
    assert(entries@.map_values(shown) + Seq::empty() =~= entries@.map_values(shown));
    Ok(entries)
}

fn get_lines(count: u32, src: &mut ReadCursor<'_>) -> (outcome: Result<Vec<String>, WireError>)
    requires
        read_position(*old(src)) <= read_buffer(*old(src)).len(),
    ensures
        lines_read(count as nat, unread(*old(src))).0 == match outcome {
            Ok(lines) => Ok::<Seq<Seq<char>>, WireError>(texts(lines@)),
            Err(error) => Err(error),
        },
        advanced(*old(src), *final(src), lines_read(count as nat, unread(*old(src))).1),
{
    let ghost first = *src;
    let ghost expected = lines_read(count as nat, unread(first));
    let ghost mut consumed: nat = 0;
    let mut lines: Vec<String> = Vec::new();
    let mut left: u32 = count;
    assert(texts(lines@) =~= Seq::empty());
    assert(expected.0 matches Ok(all) ==> texts(lines@) + all =~= all);
    while left > 0
        invariant
            first == *old(src),
            expected == lines_read(count as nat, unread(first)),
            advanced(first, *src, consumed),
            read_position(*src) <= read_buffer(*src).len(),
            expected == match lines_read(left as nat, unread(*src)) {
                (Err(error), more) => (Err::<Seq<Seq<char>>, WireError>(error), consumed + more),
                (Ok(rest), more) => (Ok(texts(lines@) + rest), consumed + more),
            },
        decreases left,
    {
        let ghost before = *src;
        let ghost sofar = lines@;
        proof {
            lemma_string_read_within(unread(before));
        }
        let line: String = match read_string(src) {
            Err(error) => {
                return Err(error);
            },
            Ok(line) => line,
        };
        let ghost read = line@;
        lines.push(line);
        proof {
            lemma_advanced(before, *src, string_read(unread(before)).1);
            assert(texts(lines@) =~= texts(sofar).push(read));
            if let (Ok(rest), more) = lines_read((left - 1) as nat, unread(*src)) {
                assert(texts(sofar) + (seq![read] + rest) =~= texts(sofar).push(read) + rest);
            }
            consumed = consumed + string_read(unread(before)).1;
        }
        left -= 1;
    }
    assert(texts(lines@) + Seq::empty() =~= texts(lines@));
    Ok(lines)
}

fn state_from(tag: u8) -> (state: Result<ConnState, WireError>)
    ensures
        state == state_of(tag),
{
    match tag {
        0 => Ok(ConnState::NoSession),
        1 => Ok(ConnState::Connecting),
        2 => Ok(ConnState::Connected),
        3 => Ok(ConnState::Disconnected),
        4 => Ok(ConnState::Failed),
        _ => Err(WireError::InvalidField { field: "connection state", reason: "unknown tag" }),
    }
}

fn get_status(src: &mut ReadCursor<'_>) -> (outcome: Result<StatusInfo, WireError>)
    ensures
        status_read(unread(*old(src))).0 == match outcome {
            Ok(status) => Ok::<StatusView, WireError>(status@),
            Err(error) => Err(error),
        },
        advanced(*old(src), *final(src), status_read(unread(*old(src))).1),
{
    proof {
        reveal(status_read);
        reveal(destination_read);
        reveal(width_read);
        reveal(height_read);
        reveal(message_read);
    }
    let state: ConnState = match get_byte(src) {
        Err(error) => {
            return Err(error);
        },
        Ok(tag) => match state_from(tag) {
            Err(error) => {
                return Err(error);
            },
            Ok(state) => state,
        },
    };
    let destination: Option<String> = match get_opt_text(src) {
        Err(error) => {
            return Err(error);
        },
        Ok(destination) => destination,
    };
    let width: Option<u16> = match get_opt_u16(src) {
        Err(error) => {
            return Err(error);
        },
        Ok(width) => width,
    };
    let height: Option<u16> = match get_opt_u16(src) {
        Err(error) => {
            return Err(error);
        },
        Ok(height) => height,
    };
    match get_opt_text(src) {
        Err(error) => Err(error),
        Ok(message) => Ok(StatusInfo { state, destination, width, height, message }),
    }
}

/// Reads the fields of a response with this tag.
fn get_response_fields(tag: u8, src: &mut ReadCursor<'_>) -> (outcome: Result<Response, WireError>)
    ensures
        read_response_view(outcome) == response_fields_read(tag, unread(*old(src))).0,
        advanced(*old(src), *final(src), response_fields_read(tag, unread(*old(src))).1),
{
    match tag {
        0 => match read_string(src) {
            Err(error) => Err(error),
            Ok(message) => Ok(Response::Failure(message)),
        },
        1 => Ok(Response::Success(Payload::Empty)),
        2 => match get_status(src) {
            Err(error) => Err(error),
            Ok(status) => Ok(Response::Success(Payload::Status(status))),
        },
        3 => match get_u32(src) {
            Err(error) => Err(error),
            Ok(count) => match get_entries(count, src) {
                Err(error) => Err(error),
                Ok(entries) => Ok(
                    Response::Success(Payload::Properties(PropertyDump { entries })),
                ),
            },
        },
        4 => match get_u32(src) {
            Err(error) => Err(error),
            Ok(count) => match get_lines(count, src) {
                Err(error) => Err(error),
                Ok(lines) => Ok(Response::Success(Payload::Logs(lines))),
            },
        },
        5 => match get_u16(src) {
            Err(error) => Err(error),
            Ok(width) => match get_u16(src) {
                Err(error) => Err(error),
                Ok(height) => Ok(Response::Success(Payload::Screenshot { width, height })),
            },
        },
        _ => Err(WireError::InvalidField { field: "response", reason: "unknown tag" }),
    }
}

/// Reads a response that [`write_response`] writes.
pub fn read_response(src: &mut ReadCursor<'_>) -> (outcome: Result<Response, WireError>)
    ensures
        read_response_view(outcome) == response_read(unread(*old(src))).0,
        advanced(*old(src), *final(src), response_read(unread(*old(src))).1),
{
    match get_byte(src) {
        Err(error) => Err(error),
        Ok(tag) => get_response_fields(tag, src),
    }
}

// ---------------------------------------------------------------------------
// Laws
// ---------------------------------------------------------------------------

proof fn lemma_entry_reads_back(entry: EntryView, following: Seq<u8>)
    requires
        entry_bytes(entry).len() <= u32::MAX,
    ensures
        entry_read(entry_bytes(entry) + following) == (
            Ok::<EntryView, WireError>(entry),
            entry_bytes(entry).len(),
        ),
{
    reveal(entry_read);
    let bytes = entry_bytes(entry) + following;
    let pair = (entry.key, entry.value);
    let rest = opt_string_bytes(entry.description) + following;
    lemma_pair_length(pair);
    assert(bytes =~= pair_bytes(pair) + rest);
    lemma_pair_reads_back(pair, rest);
    assert(bytes.skip(pair_bytes(pair).len() as int) =~= rest);
    lemma_opt_text_reads_back(entry.description, following);
}

proof fn lemma_entries_read_back(entries: Seq<EntryView>, following: Seq<u8>)
    requires
        entries_bytes(entries).len() <= u32::MAX,
    ensures
        entries_read(entries.len(), entries_bytes(entries) + following) == (
            Ok::<Seq<EntryView>, WireError>(entries),
            entries_bytes(entries).len(),
        ),
    decreases entries.len(),
{
    if entries.len() == 0 {
        assert(entries =~= Seq::empty());
    } else {
        let entry = entries[0];
        let rest = entries.skip(1);
        let bytes = entries_bytes(entries) + following;
        assert(bytes =~= entry_bytes(entry) + (entries_bytes(rest) + following));
        lemma_entry_reads_back(entry, entries_bytes(rest) + following);
        assert(bytes.skip(entry_bytes(entry).len() as int) =~= entries_bytes(rest) + following);
        lemma_entries_read_back(rest, following);
        assert(seq![entry] + rest =~= entries);
    }
}

proof fn lemma_lines_read_back(lines: Seq<Seq<char>>, following: Seq<u8>)
    requires
        lines_bytes(lines).len() <= u32::MAX,
    ensures
        lines_read(lines.len(), lines_bytes(lines) + following) == (
            Ok::<Seq<Seq<char>>, WireError>(lines),
            lines_bytes(lines).len(),
        ),
    decreases lines.len(),
{
    if lines.len() == 0 {
        assert(lines =~= Seq::empty());
    } else {
        let line = lines[0];
        let rest = lines.skip(1);
        let bytes = lines_bytes(lines) + following;
        string_size_is_what_is_written(line);
        assert(bytes =~= string_bytes(line) + (lines_bytes(rest) + following));
        strings_read_back(line, lines_bytes(rest) + following);
        assert(bytes.skip(string_bytes(line).len() as int) =~= lines_bytes(rest) + following);
        lemma_lines_read_back(rest, following);
        assert(seq![line] + rest =~= lines);
    }
}

proof fn lemma_message_reads_back(status: StatusView, following: Seq<u8>)
    requires
        opt_string_bytes(status.message).len() <= u32::MAX,
    ensures
        message_read(
            status.state,
            status.destination,
            status.width,
            status.height,
            opt_string_bytes(status.message) + following,
        ) == (Ok::<StatusView, WireError>(status), opt_string_bytes(status.message).len()),
{
    reveal(message_read);
    lemma_opt_text_reads_back(status.message, following);
}

proof fn lemma_height_reads_back(status: StatusView, following: Seq<u8>)
    requires
        opt_string_bytes(status.message).len() <= u32::MAX,
    ensures
        height_read(
            status.state,
            status.destination,
            status.width,
            opt_u16_bytes(status.height) + (opt_string_bytes(status.message) + following),
        ) == (
            Ok::<StatusView, WireError>(status),
            opt_u16_bytes(status.height).len() + opt_string_bytes(status.message).len(),
        ),
{
    reveal(height_read);
    lemma_opt_u16_reads_back(status.height, opt_string_bytes(status.message) + following);
    lemma_message_reads_back(status, following);
}

proof fn lemma_width_reads_back(status: StatusView, following: Seq<u8>)
    requires
        opt_string_bytes(status.message).len() <= u32::MAX,
    ensures
        width_read(
            status.state,
            status.destination,
            opt_u16_bytes(status.width) + (opt_u16_bytes(status.height) + (opt_string_bytes(
                status.message,
            ) + following)),
        ) == (
            Ok::<StatusView, WireError>(status),
            opt_u16_bytes(status.width).len() + opt_u16_bytes(status.height).len()
                + opt_string_bytes(status.message).len(),
        ),
{
    reveal(width_read);
    lemma_opt_u16_reads_back(
        status.width,
        opt_u16_bytes(status.height) + (opt_string_bytes(status.message) + following),
    );
    lemma_height_reads_back(status, following);
}

proof fn lemma_destination_reads_back(status: StatusView, following: Seq<u8>)
    requires
        opt_string_bytes(status.destination).len() <= u32::MAX,
        opt_string_bytes(status.message).len() <= u32::MAX,
    ensures
        destination_read(
            status.state,
            opt_string_bytes(status.destination) + (opt_u16_bytes(status.width) + (opt_u16_bytes(
                status.height,
            ) + (opt_string_bytes(status.message) + following))),
        ) == (
            Ok::<StatusView, WireError>(status),
            opt_string_bytes(status.destination).len() + opt_u16_bytes(status.width).len()
                + opt_u16_bytes(status.height).len() + opt_string_bytes(status.message).len(),
        ),
{
    reveal(destination_read);
    lemma_opt_text_reads_back(
        status.destination,
        opt_u16_bytes(status.width) + (opt_u16_bytes(status.height) + (opt_string_bytes(
            status.message,
        ) + following)),
    );
    lemma_width_reads_back(status, following);
}

proof fn lemma_status_reads_back(status: StatusView, following: Seq<u8>)
    requires
        status_bytes(status).len() <= u32::MAX,
    ensures
        status_read(status_bytes(status) + following) == (
            Ok::<StatusView, WireError>(status),
            status_bytes(status).len(),
        ),
{
    reveal(status_read);
    let tag = seq![state_tag(status.state)];
    let destination = opt_string_bytes(status.destination);
    let width = opt_u16_bytes(status.width);
    let height = opt_u16_bytes(status.height);
    let message = opt_string_bytes(status.message);
    lemma_concatenated(tag, destination + (width + (height + message)), following);
    lemma_concatenated(destination, width + (height + message), following);
    lemma_concatenated(width, height + message, following);
    lemma_concatenated(height, message, following);
    let rest = destination + (width + (height + (message + following)));
    assert(status_bytes(status) + following == tag + rest);
    assert((tag + rest).skip(1) =~= rest);
    lemma_destination_reads_back(status, following);
}

proof fn lemma_response_fields_read_back(response: ResponseView, following: Seq<u8>)
    requires
        response_fields(response).len() <= u32::MAX,
    ensures
        response_fields_read(response_tag(response), response_fields(response) + following) == (
            Ok::<ResponseView, WireError>(response),
            response_fields(response).len(),
        ),
{
    let bytes = response_fields(response) + following;
    match response {
        ResponseView::Failure(message) => {
            string_size_is_what_is_written(message);
            strings_read_back(message, following);
        },
        ResponseView::Success(PayloadView::Empty) => {},
        ResponseView::Success(PayloadView::Status(status)) => {
            lemma_status_reads_back(status, following);
        },
        ResponseView::Success(PayloadView::Properties(entries)) => {
            let rest = entries_bytes(entries) + following;
            lemma_entries_count(entries);
            assert(bytes =~= le_bytes(entries.len(), 4) + rest);
            lemma_u32_reads_back(entries.len() as u32, rest);
            lemma_entries_read_back(entries, following);
        },
        ResponseView::Success(PayloadView::Logs(lines)) => {
            let rest = lines_bytes(lines) + following;
            lemma_lines_count(lines);
            assert(bytes =~= le_bytes(lines.len(), 4) + rest);
            lemma_u32_reads_back(lines.len() as u32, rest);
            lemma_lines_read_back(lines, following);
        },
        ResponseView::Success(PayloadView::Screenshot(width, height)) => {
            let rest = le_bytes(height as nat, 2) + following;
            assert(bytes =~= le_bytes(width as nat, 2) + rest);
            lemma_u16_reads_back(width, rest);
            lemma_u16_reads_back(height, following);
        },
    }
}

/// A response reads back as it was written, whatever follows it, and exactly its bytes are
/// consumed.
pub proof fn responses_read_back(response: ResponseView, following: Seq<u8>)
    requires
        response_bytes(response).len() <= u32::MAX,
    ensures
        response_read(response_bytes(response) + following) == (
            Ok::<ResponseView, WireError>(response),
            response_bytes(response).len(),
        ),
{
    let bytes = response_bytes(response) + following;
    assert(bytes.skip(1) =~= response_fields(response) + following);
    lemma_response_fields_read_back(response, following);
}

} // verus!

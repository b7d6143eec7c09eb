//! Requests, in the form in which they travel.

use ironrdp_core::{ReadCursor, WriteCursor};
use ironrdp_propertyset::PropertySet;
use vstd::prelude::*;

use crate::input::MouseButton;
use crate::ipc::codec::{
    byte_read, ensure_message, get_byte, get_flag, get_opt_text, get_opt_u32, get_u16, in_turn,
    lemma_concatenated, lemma_opt_text_reads_back, lemma_opt_u32_reads_back, lemma_u16_reads_back,
    message_written, opt_text_size, opt_u32_bytes, opt_u32_read, plus, put_flag, put_opt_text,
    put_opt_u32, put_text, sized, text_size, u16_read, unknown_tag,
};
use crate::ipc::{opt_filter, FilterView, KeyFilter, Request, RequestView};
use crate::properties::{in_key_order, property_map, PropertyMap, PropertyPair};
use crate::wire::propertyset;
use crate::wire::propertyset::{
    checked_set_size, fitting_sets_are_written, layered, pair_fits, pairs_length, set_bytes,
    set_read, set_size_is_what_is_written, written_sets_read_back,
};
use crate::wire::{
    advanced, bool_byte, bool_read, bools_read_back, char_read, chars_read_back, clamped, le_bytes,
    lemma_advanced, lemma_le_bytes_len, lemma_wrote, lemma_wrote_nothing, opt_string_bytes,
    opt_string_read, opt_text, read_char, read_string, room, string_bytes, string_read,
    string_size_is_what_is_written, strings_read_back, unread, wrote, WireError,
};

verus! {

// ---------------------------------------------------------------------------
// Layout
// ---------------------------------------------------------------------------

/// The tag of a mouse button.
pub open spec fn button_tag(button: MouseButton) -> u8 {
    match button {
        MouseButton::Left => 0,
        MouseButton::Middle => 1,
        MouseButton::Right => 2,
        MouseButton::X1 => 3,
        MouseButton::X2 => 4,
    }
}

/// A filter that may be missing: its tag, then its text.
pub open spec fn filter_bytes(filter: Option<FilterView>) -> Seq<u8> {
    match filter {
        None => seq![0u8],
        Some(FilterView::Substring(text)) => seq![1u8] + string_bytes(text),
        Some(FilterView::Prefix(text)) => seq![2u8] + string_bytes(text),
    }
}

/// The tag of a request.
pub open spec fn request_tag(request: RequestView) -> u8 {
    match request {
        RequestView::Connect(_) => 0,
        RequestView::Disconnect => 1,
        RequestView::Status => 2,
        RequestView::DumpProperties(_) => 3,
        RequestView::QueryLogs(_, _) => 4,
        RequestView::Screenshot => 5,
        RequestView::MouseMove(_, _) => 6,
        RequestView::MouseButton(_, _) => 7,
        RequestView::Wheel(_, _) => 8,
        RequestView::KeyScancode(_, _) => 9,
        RequestView::KeyUnicode(_, _) => 10,
    }
}

/// The fields of a request, one after the other.
pub open spec fn request_fields(request: RequestView) -> Seq<u8> {
    match request {
        RequestView::Connect(properties) => set_bytes(in_key_order(properties)),
        RequestView::Disconnect => Seq::empty(),
        RequestView::Status => Seq::empty(),
        RequestView::DumpProperties(filter) => filter_bytes(filter),
        RequestView::QueryLogs(substring, last) => opt_string_bytes(substring) + opt_u32_bytes(
            last,
        ),
        RequestView::Screenshot => Seq::empty(),
        RequestView::MouseMove(x, y) => le_bytes(x as nat, 2) + le_bytes(y as nat, 2),
        RequestView::MouseButton(button, pressed) => seq![button_tag(button)] + seq![
            bool_byte(pressed),
        ],
        RequestView::Wheel(delta, horizontal) => le_bytes((delta as u16) as nat, 2) + seq![
            bool_byte(horizontal),
        ],
        RequestView::KeyScancode(scancode, pressed) => le_bytes(scancode as nat, 2) + seq![
            bool_byte(pressed),
        ],
        RequestView::KeyUnicode(ch, pressed) => le_bytes(ch as nat, 4) + seq![bool_byte(pressed)],
    }
}

/// A request: its tag, then its fields.
pub open spec fn request_bytes(request: RequestView) -> Seq<u8> {
    seq![request_tag(request)] + request_fields(request)
}

// ---------------------------------------------------------------------------
// Writing
// ---------------------------------------------------------------------------

fn fields_size(request: &Request) -> (size: Option<usize>)
    ensures
        size == sized(request_fields(request@).len()),
        request@ matches RequestView::Connect(properties) ==> properties.dom().finite(),
{
    proof {
        lemma_le_bytes_len(0, 2);
    }
    match request {
        Request::Connect(properties) => {
            proof {
                set_size_is_what_is_written(in_key_order(property_map(*properties)));
            }
            checked_set_size(properties)
        },
        Request::Disconnect => Some(0),
        Request::Status => Some(0),
        Request::DumpProperties { filter } => match filter {
            None => Some(1),
            Some(KeyFilter::Substring(text)) => plus(Some(1), text_size(text.as_str())),
            Some(KeyFilter::Prefix(text)) => plus(Some(1), text_size(text.as_str())),
        },
        Request::QueryLogs { substring, last } => {
            proof {
                if let Some(last) = *last {
                    lemma_le_bytes_len(last as nat, 4);
                }
            }
            plus(
                opt_text_size(substring),
                Some(
                    match last {
                        Some(_) => 5,
                        None => 1,
                    },
                ),
            )
        },
        Request::Screenshot => Some(0),
        Request::MouseMove { x, y } => {
            proof {
                lemma_le_bytes_len(*x as nat, 2);
                lemma_le_bytes_len(*y as nat, 2);
            }
            Some(4)
        },
        Request::MouseButton { button, pressed } => Some(2),
        Request::Wheel { delta, horizontal } => {
            proof {
                lemma_le_bytes_len((*delta as u16) as nat, 2);
            }
            Some(3)
        },
        Request::KeyScancode { scancode, pressed } => {
            proof {
                lemma_le_bytes_len(*scancode as nat, 2);
            }
            Some(3)
        },
        Request::KeyUnicode { ch, pressed } => {
            proof {
                lemma_le_bytes_len(*ch as nat, 4);
            }
            Some(5)
        },
    }
}

/// Size on the wire of a request.
pub fn request_size(request: &Request) -> (size: usize)
    ensures
        size == clamped(request_bytes(request@).len()),
        request@ matches RequestView::Connect(properties) ==> properties.dom().finite(),
{
    match plus(Some(1), fields_size(request)) {
        Some(size) => size,
        None => usize::MAX,
    }
}

fn put_filter(dst: &mut WriteCursor<'_>, filter: &Option<KeyFilter>)
    requires
        filter_bytes(opt_filter(*filter)).len() <= room(*old(dst)),
        filter_bytes(opt_filter(*filter)).len() <= u32::MAX,
    ensures
        wrote(*old(dst), *final(dst), filter_bytes(opt_filter(*filter))),
{
    let ghost first = *dst;
    match filter {
        None => dst.write_u8(0),
        Some(KeyFilter::Substring(text)) => {
            dst.write_u8(1);
            let ghost second = *dst;
            put_text(dst, text.as_str());
            proof {
                lemma_wrote(first, second, *dst, seq![1u8], string_bytes(text@));
            }
        },
        Some(KeyFilter::Prefix(text)) => {
            dst.write_u8(2);
            let ghost second = *dst;
            put_text(dst, text.as_str());
            proof {
                lemma_wrote(first, second, *dst, seq![2u8], string_bytes(text@));
            }
        },
    }
}

proof fn lemma_short_sets_fit(entries: Seq<PropertyPair>)
    requires
        pairs_length(entries) <= u32::MAX,
    ensures
        entries.len() <= pairs_length(entries),
        forall|i: int| 0 <= i < entries.len() ==> pair_fits(#[trigger] entries[i]),
    decreases entries.len(),
{
    if entries.len() > 0 {
        let rest = entries.skip(1);
        lemma_short_sets_fit(rest);
        assert forall|i: int| 0 <= i < entries.len() implies pair_fits(#[trigger] entries[i]) by {
            if i > 0 {
                assert(entries[i] == rest[i - 1]);
            }
        }
    }
}

/// Writes the fields of a request where there is room for them.
fn put_fields(request: &Request, dst: &mut WriteCursor<'_>)
    requires
        request_fields(request@).len() <= room(*old(dst)),
        request_fields(request@).len() <= u32::MAX,
    ensures
        wrote(*old(dst), *final(dst), request_fields(request@)),
{
    let ghost first = *dst;
    proof {
        lemma_wrote_nothing(first);
    }
    match request {
        Request::Connect(properties) => {
            proof {
                let entries = in_key_order(property_map(*properties));
                set_size_is_what_is_written(entries);
                lemma_short_sets_fit(entries);
                fitting_sets_are_written(room(first), entries);
            }
            let _ = propertyset::write(properties, dst);
        },
        Request::Disconnect => {},
        Request::Status => {},
        Request::DumpProperties { filter } => put_filter(dst, filter),
        Request::QueryLogs { substring, last } => {
            put_opt_text(dst, substring);
            let ghost second = *dst;
            put_opt_u32(dst, *last);
            proof {
                lemma_wrote(
                    first,
                    second,
                    *dst,
                    opt_string_bytes(opt_text(*substring)),
                    opt_u32_bytes(*last),
                );
            }
        },
        Request::Screenshot => {},
        Request::MouseMove { x, y } => {
            proof {
                lemma_le_bytes_len(*x as nat, 2);
                lemma_le_bytes_len(*y as nat, 2);
            }
            dst.write_u16(*x);
            let ghost second = *dst;
            dst.write_u16(*y);
            proof {
                lemma_wrote(first, second, *dst, le_bytes(*x as nat, 2), le_bytes(*y as nat, 2));
            }
        },
        Request::MouseButton { button, pressed } => {
            let tag: u8 = match button {
                MouseButton::Left => 0,
                MouseButton::Middle => 1,
                MouseButton::Right => 2,
                MouseButton::X1 => 3,
                MouseButton::X2 => 4,
            };
            dst.write_u8(tag);
            let ghost second = *dst;
            put_flag(dst, *pressed);
            proof {
                lemma_wrote(first, second, *dst, seq![tag], seq![bool_byte(*pressed)]);
            }
        },
        Request::Wheel { delta, horizontal } => {
            let bits: u16 = *delta as u16;
            proof {
                lemma_le_bytes_len(bits as nat, 2);
            }
            dst.write_u16(bits);
            let ghost second = *dst;
            put_flag(dst, *horizontal);
            proof {
                lemma_wrote(
                    first,
                    second,
                    *dst,
                    le_bytes(bits as nat, 2),
                    seq![bool_byte(*horizontal)],
                );
            }
        },
        Request::KeyScancode { scancode, pressed } => {
            proof {
                lemma_le_bytes_len(*scancode as nat, 2);
            }
            dst.write_u16(*scancode);
            let ghost second = *dst;
            put_flag(dst, *pressed);
            proof {
                lemma_wrote(
                    first,
                    second,
                    *dst,
                    le_bytes(*scancode as nat, 2),
                    seq![bool_byte(*pressed)],
                );
            }
        },
        Request::KeyUnicode { ch, pressed } => {
            proof {
                lemma_le_bytes_len(*ch as nat, 4);
            }
            dst.write_u32(*ch as u32);
            let ghost second = *dst;
            put_flag(dst, *pressed);
            proof {
                lemma_wrote(
                    first,
                    second,
                    *dst,
                    le_bytes(*ch as nat, 4),
                    seq![bool_byte(*pressed)],
                );
            }
        },
    }
}

/// Writes a request.
pub fn write_request(request: &Request, dst: &mut WriteCursor<'_>) -> (outcome: Result<
    (),
    WireError,
>)
    ensures
        outcome == message_written(room(*old(dst)), request_bytes(request@)).0,
        wrote(*old(dst), *final(dst), message_written(room(*old(dst)), request_bytes(request@)).1),
        request@ matches RequestView::Connect(properties) ==> properties.dom().finite(),
{
    let ghost first = *dst;
    proof {
        lemma_wrote_nothing(first);
    }
    let received: usize = dst.remaining().len();
    let size: Option<usize> = plus(Some(1), fields_size(request));
    assert(size == sized(request_bytes(request@).len()));
    match ensure_message(received, size) {
        Ok(()) => {},
        Err(error) => {
            return Err(error);
        },
    }
    let tag: u8 = match request {
        Request::Connect(_) => 0,
        Request::Disconnect => 1,
        Request::Status => 2,
        Request::DumpProperties { filter } => 3,
        Request::QueryLogs { substring, last } => 4,
        Request::Screenshot => 5,
        Request::MouseMove { x, y } => 6,
        Request::MouseButton { button, pressed } => 7,
        Request::Wheel { delta, horizontal } => 8,
        Request::KeyScancode { scancode, pressed } => 9,
        Request::KeyUnicode { ch, pressed } => 10,
    };
    dst.write_u8(tag);
    let ghost second = *dst;
    put_fields(request, dst);
    proof {
        lemma_wrote(first, second, *dst, seq![tag], request_fields(request@));
    }
    Ok(())
}

// ---------------------------------------------------------------------------
// Reading
// ---------------------------------------------------------------------------

/// The filter that may be missing at the start of `bytes`, and how many bytes are consumed in
/// reading it.
pub open spec fn filter_read(bytes: Seq<u8>) -> (Result<Option<FilterView>, WireError>, nat) {
    in_turn(
        bytes,
        byte_read(bytes),
        |tag: u8, rest: Seq<u8>|
            if tag == 0 {
                (Ok(None), 0nat)
            } else if tag == 1 {
                in_turn(
                    rest,
                    string_read(rest),
                    |text: Seq<char>, rest: Seq<u8>|
                        (Ok::<_, WireError>(Some(FilterView::Substring(text))), 0nat),
                )
            } else if tag == 2 {
                in_turn(
                    rest,
                    string_read(rest),
                    |text: Seq<char>, rest: Seq<u8>|
                        (Ok::<_, WireError>(Some(FilterView::Prefix(text))), 0nat),
                )
            } else {
                (unknown_tag("key filter"), 0)
            },
    )
}

/// The button with this tag.
pub open spec fn button_of(tag: u8) -> Result<MouseButton, WireError> {
    if tag == 0 {
        Ok(MouseButton::Left)
    } else if tag == 1 {
        Ok(MouseButton::Middle)
    } else if tag == 2 {
        Ok(MouseButton::Right)
    } else if tag == 3 {
        Ok(MouseButton::X1)
    } else if tag == 4 {
        Ok(MouseButton::X2)
    } else {
        unknown_tag("mouse button")
    }
}

/// The properties at the start of `bytes`, and how many bytes are consumed in reading them.
pub open spec fn properties_read(bytes: Seq<u8>) -> (Result<PropertyMap, WireError>, nat) {
    let (outcome, entries, count) = set_read(bytes);
    match outcome {
        Ok(()) => (Ok(layered(PropertyMap::empty(), entries)), count),
        Err(error) => (Err(error), count),
    }
}

/// The request with this tag whose fields stand at the start of `bytes`, and how many bytes are
/// consumed in reading them.
pub open spec fn request_fields_read(tag: u8, bytes: Seq<u8>) -> (
    Result<RequestView, WireError>,
    nat,
) {
    if tag == 0 {
        in_turn(
            bytes,
            properties_read(bytes),
            |properties: PropertyMap, rest: Seq<u8>|
                (Ok::<_, WireError>(RequestView::Connect(properties)), 0nat),
        )
    } else if tag == 1 {
        (Ok(RequestView::Disconnect), 0)
    } else if tag == 2 {
        (Ok(RequestView::Status), 0)
    } else if tag == 3 {
        in_turn(
            bytes,
            filter_read(bytes),
            |filter: Option<FilterView>, rest: Seq<u8>|
                (Ok::<_, WireError>(RequestView::DumpProperties(filter)), 0nat),
        )
    } else if tag == 4 {
        in_turn(
            bytes,
            opt_string_read(bytes),
            |substring: Option<Seq<char>>, rest: Seq<u8>|
                in_turn(
                    rest,
                    opt_u32_read(rest),
                    |last: Option<u32>, rest: Seq<u8>|
                        (Ok::<_, WireError>(RequestView::QueryLogs(substring, last)), 0nat),
                ),
        )
    } else if tag == 5 {
        (Ok(RequestView::Screenshot), 0)
    } else if tag == 6 {
        in_turn(
            bytes,
            u16_read(bytes),
            |x: u16, rest: Seq<u8>|
                in_turn(
                    rest,
                    u16_read(rest),
                    |y: u16, rest: Seq<u8>|
                        (Ok::<_, WireError>(RequestView::MouseMove(x, y)), 0nat),
                ),
        )
    } else if tag == 7 {
        in_turn(
            bytes,
            byte_read(bytes),
            |tag: u8, rest: Seq<u8>|
                match button_of(tag) {
                    Err(error) => (Err(error), 0nat),
                    Ok(button) => in_turn(
                        rest,
                        bool_read(rest),
                        |pressed: bool, rest: Seq<u8>|
                            (Ok::<_, WireError>(RequestView::MouseButton(button, pressed)), 0nat),
                    ),
                },
        )
    } else if tag == 8 {
        in_turn(
            bytes,
            u16_read(bytes),
            |bits: u16, rest: Seq<u8>|
                in_turn(
                    rest,
                    bool_read(rest),
                    |horizontal: bool, rest: Seq<u8>|
                        (Ok::<_, WireError>(RequestView::Wheel(bits as i16, horizontal)), 0nat),
                ),
        )
    } else if tag == 9 {
        in_turn(
            bytes,
            u16_read(bytes),
            |scancode: u16, rest: Seq<u8>|
                in_turn(
                    rest,
                    bool_read(rest),
                    |pressed: bool, rest: Seq<u8>|
                        (Ok::<_, WireError>(RequestView::KeyScancode(scancode, pressed)), 0nat),
                ),
        )
    } else if tag == 10 {
        in_turn(
            bytes,
            char_read(bytes),
            |ch: char, rest: Seq<u8>|
                in_turn(
                    rest,
                    bool_read(rest),
                    |pressed: bool, rest: Seq<u8>|
                        (Ok::<_, WireError>(RequestView::KeyUnicode(ch, pressed)), 0nat),
                ),
        )
    } else {
        (unknown_tag("request"), 0)
    }
}

/// The request at the start of `bytes`, and how many bytes are consumed in reading it.
pub open spec fn request_read(bytes: Seq<u8>) -> (Result<RequestView, WireError>, nat) {
    in_turn(
        bytes,
        byte_read(bytes),
        |tag: u8, rest: Seq<u8>| request_fields_read(tag, rest),
    )
}

/// The mathematical value of a request that was read.
pub open spec fn read_request_view(outcome: Result<Request, WireError>) -> Result<
    RequestView,
    WireError,
> {
    match outcome {
        Ok(request) => Ok(request@),
        Err(error) => Err(error),
    }
}

fn get_filter(src: &mut ReadCursor<'_>) -> (outcome: Result<Option<KeyFilter>, WireError>)
    ensures
        filter_read(unread(*old(src))).0 == match outcome {
            Ok(filter) => Ok::<Option<FilterView>, WireError>(opt_filter(filter)),
            Err(error) => Err(error),
        },
        advanced(*old(src), *final(src), filter_read(unread(*old(src))).1),
{
    match get_byte(src) {
        Err(error) => Err(error),
        Ok(0) => Ok(None),
        Ok(1) => match read_string(src) {
            Err(error) => Err(error),
            Ok(text) => Ok(Some(KeyFilter::Substring(text))),
        },
        Ok(2) => match read_string(src) {
            Err(error) => Err(error),
            Ok(text) => Ok(Some(KeyFilter::Prefix(text))),
        },
        Ok(_) => Err(WireError::InvalidField { field: "key filter", reason: "unknown tag" }),
    }
}

fn button_from(tag: u8) -> (button: Result<MouseButton, WireError>)
    ensures
        button == button_of(tag),
{
    match tag {
        0 => Ok(MouseButton::Left),
        1 => Ok(MouseButton::Middle),
        2 => Ok(MouseButton::Right),
        3 => Ok(MouseButton::X1),
        4 => Ok(MouseButton::X2),
        _ => Err(WireError::InvalidField { field: "mouse button", reason: "unknown tag" }),
    }
}

/// Reads the fields of a request with this tag.
fn get_fields(tag: u8, src: &mut ReadCursor<'_>) -> (outcome: Result<Request, WireError>)
    ensures
        read_request_view(outcome) == request_fields_read(tag, unread(*old(src))).0,
        advanced(*old(src), *final(src), request_fields_read(tag, unread(*old(src))).1),
{
    match tag {
        0 => {
            let mut properties: PropertySet = PropertySet::new();
            match propertyset::read(&mut properties, src) {
                Err(error) => Err(error),
                Ok(()) => Ok(Request::Connect(properties)),
            }
        },
        1 => Ok(Request::Disconnect),
        2 => Ok(Request::Status),
        3 => match get_filter(src) {
            Err(error) => Err(error),
            Ok(filter) => Ok(Request::DumpProperties { filter }),
        },
        4 => match get_opt_text(src) {
            Err(error) => Err(error),
            Ok(substring) => match get_opt_u32(src) {
                Err(error) => Err(error),
                Ok(last) => Ok(Request::QueryLogs { substring, last }),
            },
        },
        5 => Ok(Request::Screenshot),
        6 => match get_u16(src) {
            Err(error) => Err(error),
            Ok(x) => match get_u16(src) {
                Err(error) => Err(error),
                Ok(y) => Ok(Request::MouseMove { x, y }),
            },
        },
        7 => match get_byte(src) {
            Err(error) => Err(error),
            Ok(tag) => match button_from(tag) {
                Err(error) => Err(error),
                Ok(button) => match get_flag(src) {
                    Err(error) => Err(error),
                    Ok(pressed) => Ok(Request::MouseButton { button, pressed }),
                },
            },
        },
        8 => match get_u16(src) {
            Err(error) => Err(error),
            Ok(bits) => match get_flag(src) {
                Err(error) => Err(error),
                Ok(horizontal) => Ok(Request::Wheel { delta: bits as i16, horizontal }),
            },
        },
        9 => match get_u16(src) {
            Err(error) => Err(error),
            Ok(scancode) => match get_flag(src) {
                Err(error) => Err(error),
                Ok(pressed) => Ok(Request::KeyScancode { scancode, pressed }),
            },
        },
        10 => {
            let ghost first = *src;
            match read_char(src) {
                Err(error) => Err(error),
                Ok(ch) => {
                    proof {
                        lemma_advanced(first, *src, 4);
                    }
                    match get_flag(src) {
                        Err(error) => Err(error),
                        Ok(pressed) => Ok(Request::KeyUnicode { ch, pressed }),
                    }
                },
            }
        },
        _ => Err(WireError::InvalidField { field: "request", reason: "unknown tag" }),
    }
}

/// Reads a request that [`write_request`] writes.
pub fn read_request(src: &mut ReadCursor<'_>) -> (outcome: Result<Request, WireError>)
    ensures
        read_request_view(outcome) == request_read(unread(*old(src))).0,
        advanced(*old(src), *final(src), request_read(unread(*old(src))).1),
{
    match get_byte(src) {
        Err(error) => Err(error),
        Ok(tag) => get_fields(tag, src),
    }
}

// ---------------------------------------------------------------------------
// Laws
// ---------------------------------------------------------------------------

proof fn lemma_filter_reads_back(filter: Option<FilterView>, following: Seq<u8>)
    requires
        filter_bytes(filter).len() <= u32::MAX,
    ensures
        filter_read(filter_bytes(filter) + following) == (
            Ok::<Option<FilterView>, WireError>(filter),
            filter_bytes(filter).len(),
        ),
{
    let bytes = filter_bytes(filter) + following;
    match filter {
        None => {},
        Some(FilterView::Substring(text)) => {
            string_size_is_what_is_written(text);
            strings_read_back(text, following);
            assert(bytes.skip(1) =~= string_bytes(text) + following);
        },
        Some(FilterView::Prefix(text)) => {
            string_size_is_what_is_written(text);
            strings_read_back(text, following);
            assert(bytes.skip(1) =~= string_bytes(text) + following);
        },
    }
}

proof fn lemma_query_reads_back(
    substring: Option<Seq<char>>,
    last: Option<u32>,
    following: Seq<u8>,
)
    requires
        opt_string_bytes(substring).len() <= u32::MAX,
    ensures
        ({
            let request = RequestView::QueryLogs(substring, last);
            request_fields_read(4, request_fields(request) + following) == (
                Ok::<RequestView, WireError>(request),
                request_fields(request).len(),
            )
        }),
{
    let rest = opt_u32_bytes(last) + following;
    lemma_concatenated(opt_string_bytes(substring), opt_u32_bytes(last), following);
    lemma_opt_text_reads_back(substring, rest);
    lemma_opt_u32_reads_back(last, following);
}

proof fn lemma_pointer_reads_back(request: RequestView, following: Seq<u8>)
    requires
        request is MouseMove || request is MouseButton || request is Wheel,
    ensures
        request_fields_read(request_tag(request), request_fields(request) + following) == (
            Ok::<RequestView, WireError>(request),
            request_fields(request).len(),
        ),
{
    match request {
        RequestView::MouseMove(x, y) => {
            let rest = le_bytes(y as nat, 2) + following;
            lemma_concatenated(le_bytes(x as nat, 2), le_bytes(y as nat, 2), following);
            lemma_u16_reads_back(x, rest);
            lemma_u16_reads_back(y, following);
        },
        RequestView::MouseButton(button, pressed) => {
            let rest = seq![bool_byte(pressed)] + following;
            assert((request_fields(request) + following).skip(1) =~= rest);
            bools_read_back(pressed, following);
        },
        RequestView::Wheel(delta, horizontal) => {
            let bits = delta as u16;
            let rest = seq![bool_byte(horizontal)] + following;
            assert(bits as i16 == delta) by (bit_vector)
                requires
                    bits == delta as u16,
            ;
            lemma_concatenated(le_bytes(bits as nat, 2), seq![bool_byte(horizontal)], following);
            lemma_u16_reads_back(bits, rest);
            bools_read_back(horizontal, following);
        },
        _ => {},
    }
}

proof fn lemma_key_reads_back(request: RequestView, following: Seq<u8>)
    requires
        request is KeyScancode || request is KeyUnicode,
    ensures
        request_fields_read(request_tag(request), request_fields(request) + following) == (
            Ok::<RequestView, WireError>(request),
            request_fields(request).len(),
        ),
{
    match request {
        RequestView::KeyScancode(scancode, pressed) => {
            let rest = seq![bool_byte(pressed)] + following;
            lemma_concatenated(le_bytes(scancode as nat, 2), seq![bool_byte(pressed)], following);
            lemma_u16_reads_back(scancode, rest);
            bools_read_back(pressed, following);
        },
        RequestView::KeyUnicode(ch, pressed) => {
            let rest = seq![bool_byte(pressed)] + following;
            lemma_concatenated(le_bytes(ch as nat, 4), seq![bool_byte(pressed)], following);
            chars_read_back(ch, rest);
            lemma_le_bytes_len(ch as nat, 4);
            assert((le_bytes(ch as nat, 4) + rest).skip(4) =~= rest);
            bools_read_back(pressed, following);
        },
        _ => {},
    }
}

proof fn lemma_request_fields_read_back(request: RequestView, following: Seq<u8>)
    requires
        request_fields(request).len() <= u32::MAX,
        request matches RequestView::Connect(properties) ==> properties.dom().finite(),
    ensures
        request_fields_read(request_tag(request), request_fields(request) + following) == (
            Ok::<RequestView, WireError>(request),
            request_fields(request).len(),
        ),
{
    match request {
        RequestView::Connect(properties) => {
            let entries = in_key_order(properties);
            set_size_is_what_is_written(entries);
            lemma_short_sets_fit(entries);
            written_sets_read_back(properties, PropertyMap::empty(), following);
        },
        RequestView::DumpProperties(filter) => {
            lemma_filter_reads_back(filter, following);
        },
        RequestView::QueryLogs(substring, last) => {
            lemma_query_reads_back(substring, last, following);
        },
        RequestView::KeyScancode(_, _) => {
            lemma_key_reads_back(request, following);
        },
        RequestView::KeyUnicode(_, _) => {
            lemma_key_reads_back(request, following);
        },
        RequestView::MouseMove(_, _) => {
            lemma_pointer_reads_back(request, following);
        },
        RequestView::MouseButton(_, _) => {
            lemma_pointer_reads_back(request, following);
        },
        RequestView::Wheel(_, _) => {
            lemma_pointer_reads_back(request, following);
        },
        _ => {},
    }
}

/// A request reads back as it was written, whatever follows it, and exactly its bytes are consumed.
pub proof fn requests_read_back(request: RequestView, following: Seq<u8>)
    requires
        request_bytes(request).len() <= u32::MAX,
        request matches RequestView::Connect(properties) ==> properties.dom().finite(),
    ensures
        request_read(request_bytes(request) + following) == (
            Ok::<RequestView, WireError>(request),
            request_bytes(request).len(),
        ),
{
    let bytes = request_bytes(request) + following;
    assert(bytes.skip(1) =~= request_fields(request) + following);
    lemma_request_fields_read_back(request, following);
}

} // verus!

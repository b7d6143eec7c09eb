//! What a key filter shows, said of keys alone, and what messages hold.

use ironrdp_propertyset::PropertySet;
use vstd::prelude::*;

use crate::input::MouseButton;
use crate::ipc::{
    opt_filter, texts, FilterView, KeyFilter, Payload, PayloadView, PropertyDump, Request,
    RequestView, Response, ResponseView, StatusInfo,
};
use crate::properties::property_map;
use crate::text::laws::{
    alike_but_for_case, small_letters_contain_what_stands, small_letters_tell_alike, stands_at,
};
use crate::text::{ascii_lower, lower};
use crate::wire::opt_text;

verus! {

/// A filter for a substring shows exactly the keys in which the substring stands, ASCII case aside,
/// wherever that is; one for a prefix exactly those at whose start it stands.
pub proof fn filters_show_where_the_text_stands(text: String, key: Seq<char>)
    ensures
        KeyFilter::Substring(text).shows(key) <==> exists|at: int| stands_at(key, text@, at),
        KeyFilter::Prefix(text).shows(key) <==> stands_at(key, text@, 0),
{
    small_letters_contain_what_stands(key, text@);
}

/// A filter for a substring shows every key that has it between any two texts, empty ones too; one
/// for a prefix every key that has it before any text.
pub proof fn filters_show_what_holds_the_text(text: String, before: Seq<char>, after: Seq<char>)
    ensures
        KeyFilter::Substring(text).shows(before + text@ + after),
        KeyFilter::Prefix(text).shows(text@ + after),
{
    filters_show_where_the_text_stands(text, before + text@ + after);
    filters_show_where_the_text_stands(text, text@ + after);
    assert(stands_at(before + text@ + after, text@, before.len() as int));
    assert(stands_at(text@ + after, text@, 0));
}

/// What a filter for a prefix shows, the filter for the same substring shows, and a filter for a
/// key shows the key.
pub proof fn prefixes_are_substrings(text: String, key: Seq<char>)
    ensures
        KeyFilter::Prefix(text).shows(key) ==> KeyFilter::Substring(text).shows(key),
        KeyFilter::Substring(text).shows(text@),
        KeyFilter::Prefix(text).shows(text@),
{
    filters_show_where_the_text_stands(text, key);
    filters_show_where_the_text_stands(text, text@);
    assert(stands_at(text@, text@, 0));
}

/// Two keys that are the same, ASCII case aside, are both shown or both not.
pub proof fn filters_are_blind_to_case(filter: KeyFilter, left: Seq<char>, right: Seq<char>)
    requires
        left.len() == right.len(),
        forall|i: int| 0 <= i < left.len() ==> alike_but_for_case(#[trigger] left[i], right[i]),
    ensures
        filter.shows(left) == filter.shows(right),
{
    assert(ascii_lower(left) =~= ascii_lower(right)) by {
        assert forall|i: int| 0 <= i < left.len() implies lower(left[i])
            == lower(right[i]) by {
            small_letters_tell_alike(left[i], right[i]);
        }
    }
}

// ---------------------------------------------------------------------------
// Mathematical values
// ---------------------------------------------------------------------------

/// A request's mathematical value has each of its fields.
pub proof fn requests_are_what_they_hold(
    properties: PropertySet,
    filter: Option<KeyFilter>,
    text: String,
    substring: Option<String>,
    last: Option<u32>,
    x: u16,
    y: u16,
    button: MouseButton,
    delta: i16,
    ch: char,
    flag: bool,
)
    ensures
        Request::Connect(properties)@ == RequestView::Connect(property_map(properties)),
        Request::Disconnect@ == RequestView::Disconnect,
        Request::Status@ == RequestView::Status,
        Request::Screenshot@ == RequestView::Screenshot,
        (Request::DumpProperties { filter })@ == RequestView::DumpProperties(opt_filter(filter)),
        (Request::QueryLogs { substring, last })@ == RequestView::QueryLogs(
            opt_text(substring),
            last,
        ),
        (Request::MouseMove { x, y })@ == RequestView::MouseMove(x, y),
        (Request::MouseButton { button, pressed: flag })@ == RequestView::MouseButton(button, flag),
        (Request::Wheel { delta, horizontal: flag })@ == RequestView::Wheel(delta, flag),
        (Request::KeyScancode { scancode: x, pressed: flag })@ == RequestView::KeyScancode(x, flag),
        (Request::KeyUnicode { ch, pressed: flag })@ == RequestView::KeyUnicode(ch, flag),
        opt_filter(None) is None,
        opt_filter(Some(KeyFilter::Substring(text))) == Some(FilterView::Substring(text@)),
        opt_filter(Some(KeyFilter::Prefix(text))) == Some(FilterView::Prefix(text@)),
        opt_text(None) is None,
        opt_text(Some(text)) == Some(text@),
{
}

/// A response's mathematical value has each of its fields, and each of its lines and entries.
pub proof fn responses_are_what_they_hold(
    message: String,
    status: StatusInfo,
    dump: PropertyDump,
    lines: Vec<String>,
    width: u16,
    height: u16,
    at: int,
)
    ensures
        Response::Failure(message)@ == ResponseView::Failure(message@),
        Response::Success(Payload::Empty)@ == ResponseView::Success(PayloadView::Empty),
        Response::Success(Payload::Status(status))@ == ResponseView::Success(
            PayloadView::Status(status@),
        ),
        Response::Success(Payload::Properties(dump))@ == ResponseView::Success(
            PayloadView::Properties(dump@),
        ),
        Response::Success(Payload::Logs(lines))@ == ResponseView::Success(
            PayloadView::Logs(texts(lines@)),
        ),
        Response::Success(Payload::Screenshot { width, height })@ == ResponseView::Success(
            PayloadView::Screenshot(width, height),
        ),
        status@.state == status.state,
        status@.destination == opt_text(status.destination),
        status@.width == status.width,
        status@.height == status.height,
        status@.message == opt_text(status.message),
        texts(lines@).len() == lines@.len(),
        0 <= at < lines@.len() ==> texts(lines@)[at] == lines@[at]@,
        dump@.len() == dump.entries@.len(),
        0 <= at < dump.entries@.len() ==> dump@[at].key == dump.entries@[at].key@ && dump@[at].value
            == dump.entries@[at].value@ && dump@[at].description == opt_text(
            dump.entries@[at].description,
        ),
{
}

} // verus!

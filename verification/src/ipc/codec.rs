//! The form in which messages travel.
//!
//! A message is a one-byte tag and then its fields, one after the other. Numbers are little-endian,
//! a text is length-prefixed, and what may be missing follows a flag. A message is at most as long
//! as a `u32` can say, for that is what delimits it.

use ironrdp_core::{ReadCursor, WriteCursor};
use vstd::prelude::*;

use crate::wire::propertyset::lemma_string_read_within;
use crate::wire::{
    advanced, bool_byte, bool_read, clamped, ensure_unread, le_bytes, le_bytes_read_back, le_value,
    lemma_advanced, lemma_le_bytes_len, lemma_le_limits, lemma_wrote, opt_string_bytes,
    opt_string_read, opt_string_size_is_what_is_written, opt_strings_read_back, opt_text,
    read_bool, read_buffer, read_opt_string, read_opt_text, read_position, room, string_bytes,
    string_size_is_what_is_written, unread, write_opt_string, write_string, wrote, WireError,
};

pub mod laws;
pub mod request;
pub mod response;

verus! {

// ---------------------------------------------------------------------------
// Layout
// ---------------------------------------------------------------------------

/// A number of sixteen bits that may be missing.
pub open spec fn opt_u16_bytes(number: Option<u16>) -> Seq<u8> {
    match number {
        Some(number) => seq![1u8] + le_bytes(number as nat, 2),
        None => seq![0u8],
    }
}

/// A number of thirty-two bits that may be missing.
pub open spec fn opt_u32_bytes(number: Option<u32>) -> Seq<u8> {
    match number {
        Some(number) => seq![1u8] + le_bytes(number as nat, 4),
        None => seq![0u8],
    }
}

/// What comes of writing a message where `space` bytes can be written, and the bytes that are.
pub open spec fn message_written(space: nat, bytes: Seq<u8>) -> (Result<(), WireError>, Seq<u8>) {
    if space < bytes.len() {
        (
            Err(
                WireError::NotEnoughBytes {
                    received: space as usize,
                    expected: clamped(bytes.len()),
                },
            ),
            Seq::empty(),
        )
    } else if bytes.len() > u32::MAX {
        (
            Err(
                WireError::InvalidField { field: "message length", reason: "too many elements" },
            ),
            Seq::empty(),
        )
    } else {
        (Ok(()), bytes)
    }
}

// ---------------------------------------------------------------------------
// Sizes
// ---------------------------------------------------------------------------

/// `length` where a `usize` can hold it.
pub(crate) open spec fn sized(length: nat) -> Option<usize> {
    if length <= usize::MAX {
        Some(length as usize)
    } else {
        None
    }
}

/// The sum of two sizes.
pub(crate) fn plus(left: Option<usize>, right: Option<usize>) -> (sum: Option<usize>)
    ensures
        sum == match (left, right) {
            (Some(left), Some(right)) => sized((left + right) as nat),
            _ => None,
        },
{
    match (left, right) {
        (Some(left), Some(right)) => left.checked_add(right),
        _ => None,
    }
}

pub(crate) fn text_size(text: &str) -> (size: Option<usize>)
    ensures
        size == sized(string_bytes(text@).len()),
{
    proof {
        string_size_is_what_is_written(text@);
    }
    text.as_bytes().len().checked_add(4)
}

pub(crate) fn opt_text_size(text: &Option<String>) -> (size: Option<usize>)
    ensures
        size == sized(opt_string_bytes(opt_text(*text)).len()),
{
    match text {
        Some(text) => plus(Some(1), text_size(text.as_str())),
        None => Some(1),
    }
}

pub(crate) fn opt_u16_size(number: Option<u16>) -> (size: Option<usize>)
    ensures
        size == sized(opt_u16_bytes(number).len()),
{
    match number {
        Some(number) => {
            proof {
                lemma_le_bytes_len(number as nat, 2);
            }
            Some(3)
        },
        None => Some(1),
    }
}

/// Fails unless a message of this size can be written.
pub(crate) fn ensure_message(received: usize, size: Option<usize>) -> (outcome: Result<
    (),
    WireError,
>)
    ensures
        forall|bytes: Seq<u8>|
            size == sized(bytes.len()) ==> outcome == (#[trigger] message_written(
                received as nat,
                bytes,
            )).0,
{
    match size {
        None => Err(WireError::NotEnoughBytes { received, expected: usize::MAX }),
        Some(size) => if received < size {
            Err(WireError::NotEnoughBytes { received, expected: size })
        } else if size > u32::MAX as usize {
            Err(
                WireError::InvalidField { field: "message length", reason: "too many elements" },
            )
        } else {
            Ok(())
        },
    }
}

// ---------------------------------------------------------------------------
// Writing
// ---------------------------------------------------------------------------

pub(crate) fn put_text(dst: &mut WriteCursor<'_>, text: &str)
    requires
        string_bytes(text@).len() <= room(*old(dst)),
        string_bytes(text@).len() <= u32::MAX,
    ensures
        wrote(*old(dst), *final(dst), string_bytes(text@)),
{
    proof {
        string_size_is_what_is_written(text@);
    }
    let _ = write_string(dst, text);
}

pub(crate) fn put_opt_text(dst: &mut WriteCursor<'_>, text: &Option<String>)
    requires
        opt_string_bytes(opt_text(*text)).len() <= room(*old(dst)),
        opt_string_bytes(opt_text(*text)).len() <= u32::MAX,
    ensures
        wrote(*old(dst), *final(dst), opt_string_bytes(opt_text(*text))),
{
    proof {
        opt_string_size_is_what_is_written(opt_text(*text));
    }
    let text: Option<&str> = match text {
        Some(text) => Some(text.as_str()),
        None => None,
    };
    let _ = write_opt_string(dst, text);
}

pub(crate) fn put_flag(dst: &mut WriteCursor<'_>, value: bool)
    requires
        room(*old(dst)) >= 1,
    ensures
        wrote(*old(dst), *final(dst), seq![bool_byte(value)]),
{
    dst.write_u8(
        if value {
            1
        } else {
            0
        },
    );
}

pub(crate) fn put_opt_u16(dst: &mut WriteCursor<'_>, number: Option<u16>)
    requires
        opt_u16_bytes(number).len() <= room(*old(dst)),
    ensures
        wrote(*old(dst), *final(dst), opt_u16_bytes(number)),
{
    let ghost first = *dst;
    match number {
        None => dst.write_u8(0),
        Some(number) => {
            proof {
                lemma_le_bytes_len(number as nat, 2);
            }
            dst.write_u8(1);
            let ghost second = *dst;
            dst.write_u16(number);
            proof {
                lemma_wrote(first, second, *dst, seq![1u8], le_bytes(number as nat, 2));
            }
        },
    }
}

pub(crate) fn put_opt_u32(dst: &mut WriteCursor<'_>, number: Option<u32>)
    requires
        opt_u32_bytes(number).len() <= room(*old(dst)),
    ensures
        wrote(*old(dst), *final(dst), opt_u32_bytes(number)),
{
    let ghost first = *dst;
    match number {
        None => dst.write_u8(0),
        Some(number) => {
            proof {
                lemma_le_bytes_len(number as nat, 4);
            }
            dst.write_u8(1);
            let ghost second = *dst;
            dst.write_u32(number);
            proof {
                lemma_wrote(first, second, *dst, seq![1u8], le_bytes(number as nat, 4));
            }
        },
    }
}

// ---------------------------------------------------------------------------
// Reading
// ---------------------------------------------------------------------------

/// What comes of reading one thing at the start of `bytes`, as `first` says, and another from what
/// follows it, and how many bytes are consumed.
pub open spec fn in_turn<A, B>(
    bytes: Seq<u8>,
    first: (Result<A, WireError>, nat),
    second: spec_fn(A, Seq<u8>) -> (Result<B, WireError>, nat),
) -> (Result<B, WireError>, nat) {
    match first.0 {
        Err(error) => (Err(error), first.1),
        Ok(value) => {
            let (outcome, count) = second(value, bytes.skip(first.1 as int));
            (outcome, first.1 + count)
        },
    }
}

/// There are too few bytes.
pub open spec fn too_few<T>(bytes: Seq<u8>, expected: usize) -> (Result<T, WireError>, nat) {
    (Err(WireError::NotEnoughBytes { received: bytes.len() as usize, expected }), 0)
}

/// A tag is none of those there are.
pub open spec fn unknown_tag<T>(field: &'static str) -> Result<T, WireError> {
    Err(WireError::InvalidField { field, reason: "unknown tag" })
}

/// The byte at the start of `bytes`, and how many bytes are consumed in reading it.
pub open spec fn byte_read(bytes: Seq<u8>) -> (Result<u8, WireError>, nat) {
    if bytes.len() < 1 {
        too_few(bytes, 1)
    } else {
        (Ok(bytes[0]), 1)
    }
}

/// The number of sixteen bits at the start of `bytes`, and how many bytes are consumed in reading
/// it.
pub open spec fn u16_read(bytes: Seq<u8>) -> (Result<u16, WireError>, nat) {
    if bytes.len() < 2 {
        too_few(bytes, 2)
    } else {
        (Ok(le_value(bytes.take(2)) as u16), 2)
    }
}

/// The number of thirty-two bits at the start of `bytes`, and how many bytes are consumed in
/// reading it.
pub open spec fn u32_read(bytes: Seq<u8>) -> (Result<u32, WireError>, nat) {
    if bytes.len() < 4 {
        too_few(bytes, 4)
    } else {
        (Ok(le_value(bytes.take(4)) as u32), 4)
    }
}

/// The number of sixteen bits that may be missing at the start of `bytes`, and how many bytes are
/// consumed in reading it.
pub open spec fn opt_u16_read(bytes: Seq<u8>) -> (Result<Option<u16>, WireError>, nat) {
    in_turn(
        bytes,
        bool_read(bytes),
        |present: bool, rest: Seq<u8>|
            if present {
                in_turn(
                    rest,
                    u16_read(rest),
                    |number: u16, rest: Seq<u8>| (Ok::<_, WireError>(Some(number)), 0nat),
                )
            } else {
                (Ok(None), 0)
            },
    )
}

/// The number of thirty-two bits that may be missing at the start of `bytes`, and how many bytes
/// are consumed in reading it.
pub open spec fn opt_u32_read(bytes: Seq<u8>) -> (Result<Option<u32>, WireError>, nat) {
    in_turn(
        bytes,
        bool_read(bytes),
        |present: bool, rest: Seq<u8>|
            if present {
                in_turn(
                    rest,
                    u32_read(rest),
                    |number: u32, rest: Seq<u8>| (Ok::<_, WireError>(Some(number)), 0nat),
                )
            } else {
                (Ok(None), 0)
            },
    )
}

pub(crate) fn get_byte(src: &mut ReadCursor<'_>) -> (outcome: Result<u8, WireError>)
    ensures
        outcome == byte_read(unread(*old(src))).0,
        advanced(*old(src), *final(src), byte_read(unread(*old(src))).1),
        outcome is Ok ==> unread(*final(src)) == unread(*old(src)).skip(1) && read_position(
            *final(src),
        ) <= read_buffer(*final(src)).len(),
{
    let ghost first = *src;
    match ensure_unread(src, 1) {
        Ok(()) => {},
        Err(error) => {
            return Err(error);
        },
    }
    let byte: u8 = src.read_u8();
    proof {
        lemma_advanced(first, *src, 1);
    }
    Ok(byte)
}

pub(crate) fn get_flag(src: &mut ReadCursor<'_>) -> (outcome: Result<bool, WireError>)
    ensures
        outcome == bool_read(unread(*old(src))).0,
        advanced(*old(src), *final(src), bool_read(unread(*old(src))).1),
        outcome is Ok ==> unread(*final(src)) == unread(*old(src)).skip(1) && read_position(
            *final(src),
        ) <= read_buffer(*final(src)).len(),
{
    let ghost first = *src;
    let outcome: Result<bool, WireError> = read_bool(src);
    proof {
        if outcome is Ok {
            lemma_advanced(first, *src, 1);
        }
    }
    outcome
}

pub(crate) fn get_u16(src: &mut ReadCursor<'_>) -> (outcome: Result<u16, WireError>)
    ensures
        outcome == u16_read(unread(*old(src))).0,
        advanced(*old(src), *final(src), u16_read(unread(*old(src))).1),
        outcome is Ok ==> unread(*final(src)) == unread(*old(src)).skip(2) && read_position(
            *final(src),
        ) <= read_buffer(*final(src)).len(),
{
    let ghost first = *src;
    match ensure_unread(src, 2) {
        Ok(()) => {},
        Err(error) => {
            return Err(error);
        },
    }
    let number: u16 = src.read_u16();
    proof {
        lemma_advanced(first, *src, 2);
    }
    Ok(number)
}

pub(crate) fn get_u32(src: &mut ReadCursor<'_>) -> (outcome: Result<u32, WireError>)
    ensures
        outcome == u32_read(unread(*old(src))).0,
        advanced(*old(src), *final(src), u32_read(unread(*old(src))).1),
        outcome is Ok ==> unread(*final(src)) == unread(*old(src)).skip(4) && read_position(
            *final(src),
        ) <= read_buffer(*final(src)).len(),
{
    let ghost first = *src;
    match ensure_unread(src, 4) {
        Ok(()) => {},
        Err(error) => {
            return Err(error);
        },
    }
    let number: u32 = src.read_u32();
    proof {
        lemma_advanced(first, *src, 4);
    }
    Ok(number)
}

pub(crate) fn get_opt_u16(src: &mut ReadCursor<'_>) -> (outcome: Result<Option<u16>, WireError>)
    ensures
        outcome == opt_u16_read(unread(*old(src))).0,
        advanced(*old(src), *final(src), opt_u16_read(unread(*old(src))).1),
        outcome is Ok ==> unread(*final(src)) == unread(*old(src)).skip(
            opt_u16_read(unread(*old(src))).1 as int,
        ) && read_position(*final(src)) <= read_buffer(*final(src)).len(),
{
    let ghost bytes = unread(*src);
    match get_flag(src) {
        Err(error) => Err(error),
        Ok(false) => Ok(None),
        Ok(true) => match get_u16(src) {
            Err(error) => Err(error),
            Ok(number) => {
                assert(bytes.skip(1).skip(2) =~= bytes.skip(3));
                Ok(Some(number))
            },
        },
    }
}

pub(crate) fn get_opt_u32(src: &mut ReadCursor<'_>) -> (outcome: Result<Option<u32>, WireError>)
    ensures
        outcome == opt_u32_read(unread(*old(src))).0,
        advanced(*old(src), *final(src), opt_u32_read(unread(*old(src))).1),
{
    match get_flag(src) {
        Err(error) => Err(error),
        Ok(false) => Ok(None),
        Ok(true) => match get_u32(src) {
            Err(error) => Err(error),
            Ok(number) => Ok(Some(number)),
        },
    }
}

pub(crate) fn get_opt_text(src: &mut ReadCursor<'_>) -> (outcome: Result<Option<String>, WireError>)
    ensures
        read_opt_text(outcome) == opt_string_read(unread(*old(src))).0,
        advanced(*old(src), *final(src), opt_string_read(unread(*old(src))).1),
        outcome is Ok ==> unread(*final(src)) == unread(*old(src)).skip(
            opt_string_read(unread(*old(src))).1 as int,
        ) && read_position(*final(src)) <= read_buffer(*final(src)).len(),
{
    let ghost first = *src;
    let outcome: Result<Option<String>, WireError> = read_opt_string(src);
    proof {
        if outcome is Ok {
            lemma_string_read_within(unread(first).skip(1));
            lemma_advanced(first, *src, opt_string_read(unread(first)).1);
        }
    }
    outcome
}

// ---------------------------------------------------------------------------
// Reading back
// ---------------------------------------------------------------------------

pub(crate) proof fn lemma_concatenated<T>(a: Seq<T>, b: Seq<T>, c: Seq<T>)
    ensures
        (a + b) + c == a + (b + c),
{
    assert((a + b) + c =~= a + (b + c));
}

pub(crate) proof fn lemma_u16_reads_back(number: u16, following: Seq<u8>)
    ensures
        le_bytes(number as nat, 2).len() == 2,
        u16_read(le_bytes(number as nat, 2) + following) == (Ok::<u16, WireError>(number), 2nat),
        (le_bytes(number as nat, 2) + following).skip(2) == following,
{
    let bytes = le_bytes(number as nat, 2);
    lemma_le_limits();
    le_bytes_read_back(number as nat, 2);
    assert((bytes + following).take(2) =~= bytes);
    assert((bytes + following).skip(2) =~= following);
}

pub(crate) proof fn lemma_u32_reads_back(number: u32, following: Seq<u8>)
    ensures
        le_bytes(number as nat, 4).len() == 4,
        u32_read(le_bytes(number as nat, 4) + following) == (Ok::<u32, WireError>(number), 4nat),
        (le_bytes(number as nat, 4) + following).skip(4) == following,
{
    let bytes = le_bytes(number as nat, 4);
    lemma_le_limits();
    le_bytes_read_back(number as nat, 4);
    assert((bytes + following).take(4) =~= bytes);
    assert((bytes + following).skip(4) =~= following);
}

pub(crate) proof fn lemma_opt_u16_reads_back(number: Option<u16>, following: Seq<u8>)
    ensures
        opt_u16_read(opt_u16_bytes(number) + following) == (
            Ok::<Option<u16>, WireError>(number),
            opt_u16_bytes(number).len(),
        ),
        (opt_u16_bytes(number) + following).skip(opt_u16_bytes(number).len() as int) == following,
{
    let bytes = opt_u16_bytes(number) + following;
    if let Some(number) = number {
        lemma_u16_reads_back(number, following);
        assert(bytes.skip(1) =~= le_bytes(number as nat, 2) + following);
    }
    assert(bytes.skip(opt_u16_bytes(number).len() as int) =~= following);
}

pub(crate) proof fn lemma_opt_u32_reads_back(number: Option<u32>, following: Seq<u8>)
    ensures
        opt_u32_read(opt_u32_bytes(number) + following) == (
            Ok::<Option<u32>, WireError>(number),
            opt_u32_bytes(number).len(),
        ),
{
    let bytes = opt_u32_bytes(number) + following;
    if let Some(number) = number {
        lemma_u32_reads_back(number, following);
        assert(bytes.skip(1) =~= le_bytes(number as nat, 4) + following);
    }
}

pub(crate) proof fn lemma_opt_text_reads_back(text: Option<Seq<char>>, following: Seq<u8>)
    requires
        opt_string_bytes(text).len() <= u32::MAX,
    ensures
        opt_string_read(opt_string_bytes(text) + following) == (
            Ok::<Option<Seq<char>>, WireError>(text),
            opt_string_bytes(text).len(),
        ),
        (opt_string_bytes(text) + following).skip(opt_string_bytes(text).len() as int)
            == following,
{
    opt_string_size_is_what_is_written(text);
    opt_strings_read_back(text, following);
    assert((opt_string_bytes(text) + following).skip(opt_string_bytes(text).len() as int)
        =~= following);
}

} // verus!

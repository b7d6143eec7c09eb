//! Binary wire primitives shared by the message codecs.
//!
//! Everything is little-endian and cursor-based. Strings are length-delimited with a `u32`
//! byte-count prefix.

pub mod laws;
pub mod propertyset;

use ironrdp_core::{ReadCursor, WriteCursor};
use vstd::prelude::*;
use vstd::slice::slice_to_vec;
use vstd::utf8::{decode_utf8, encode_utf8, valid_utf8};

verus! {

/// Why a value could not be written or read.
#[derive(Debug, Clone, Copy, PartialEq, Eq)]
pub enum WireError {
    /// The buffer ends before the value does.
    NotEnoughBytes {
        /// Bytes that were left.
        received: usize,
        /// Bytes that were needed.
        expected: usize,
    },
    /// A field holds what it cannot hold.
    InvalidField {
        /// The field.
        field: &'static str,
        /// What is wrong with it.
        reason: &'static str,
    },
}

// ---------------------------------------------------------------------------
// Little-endian numbers
// ---------------------------------------------------------------------------

/// The `width` lowest bytes of `number`, lowest first.
pub open spec fn le_bytes(number: nat, width: nat) -> Seq<u8>
    decreases width,
{
    if width == 0 {
        Seq::empty()
    } else {
        seq![(number % 256) as u8] + le_bytes(number / 256, (width - 1) as nat)
    }
}

/// The number whose bytes, lowest first, are `bytes`.
pub open spec fn le_value(bytes: Seq<u8>) -> nat
    decreases bytes.len(),
{
    if bytes.len() == 0 {
        0
    } else {
        bytes[0] as nat + 256 * le_value(bytes.skip(1))
    }
}

/// How many numbers `width` bytes can hold.
pub open spec fn le_limit(width: nat) -> nat
    decreases width,
{
    if width == 0 {
        1
    } else {
        256 * le_limit((width - 1) as nat)
    }
}

/// The bits of `number` in two's complement over 64 bits, as an unsigned number.
pub open spec fn unsigned_64(number: i64) -> nat {
    if number < 0 {
        (number + 0x1_0000_0000_0000_0000) as nat
    } else {
        number as nat
    }
}

/// The number whose bits in two's complement over 64 bits are those of `bits`.
pub open spec fn signed_64(bits: nat) -> int {
    if bits < 0x8000_0000_0000_0000 {
        bits as int
    } else {
        bits - 0x1_0000_0000_0000_0000
    }
}

/// Bytes that write a number read back as it.
pub proof fn le_bytes_read_back(number: nat, width: nat)
    requires
        number < le_limit(width),
    ensures
        le_bytes(number, width).len() == width,
        le_value(le_bytes(number, width)) == number,
    decreases width,
{
    if width > 0 {
        let rest = le_bytes(number / 256, (width - 1) as nat);
        le_bytes_read_back(number / 256, (width - 1) as nat);
        assert(le_bytes(number, width).skip(1) =~= rest);
    }
}

pub(crate) proof fn lemma_le_limits()
    ensures
        le_limit(2) == 0x1_0000,
        le_limit(4) == 0x1_0000_0000,
        le_limit(8) == 0x1_0000_0000_0000_0000,
{
    reveal_with_fuel(le_limit, 9);
}

proof fn lemma_le_value_bound(bytes: Seq<u8>)
    ensures
        le_value(bytes) < le_limit(bytes.len()),
    decreases bytes.len(),
{
    if bytes.len() > 0 {
        lemma_le_value_bound(bytes.skip(1));
    }
}

pub(crate) proof fn lemma_le_bytes_len(number: nat, width: nat)
    ensures
        le_bytes(number, width).len() == width,
    decreases width,
{
    if width > 0 {
        lemma_le_bytes_len(number / 256, (width - 1) as nat);
    }
}

// ---------------------------------------------------------------------------
// The outside cursors
// ---------------------------------------------------------------------------

/// `ironrdp_core::ReadCursor`, a position in a byte slice that is being read.
#[verifier::external_type_specification]
#[verifier::external_body]
pub struct ExReadCursor<'a>(ReadCursor<'a>);

/// `ironrdp_core::WriteCursor`, a position in a byte slice that is being written.
#[verifier::external_type_specification]
#[verifier::external_body]
pub struct ExWriteCursor<'a>(WriteCursor<'a>);

/// The whole slice under a read cursor.
pub uninterp spec fn read_buffer(cursor: ReadCursor<'_>) -> Seq<u8>;

/// Where a read cursor stands in its slice.
pub uninterp spec fn read_position(cursor: ReadCursor<'_>) -> nat;

/// The whole slice under a write cursor.
pub uninterp spec fn write_buffer(cursor: WriteCursor<'_>) -> Seq<u8>;

/// Where a write cursor stands in its slice.
pub uninterp spec fn write_position(cursor: WriteCursor<'_>) -> nat;

/// What is left to read.
pub open spec fn unread(cursor: ReadCursor<'_>) -> Seq<u8> {
    if read_position(cursor) <= read_buffer(cursor).len() {
        read_buffer(cursor).skip(read_position(cursor) as int)
    } else {
        Seq::empty()
    }
}

/// The cursor `before` became `after` by reading `count` bytes.
pub open spec fn advanced(before: ReadCursor<'_>, after: ReadCursor<'_>, count: nat) -> bool {
    &&& read_buffer(after) == read_buffer(before)
    &&& read_position(after) == read_position(before) + count
}

/// How many bytes can still be written.
pub open spec fn room(cursor: WriteCursor<'_>) -> nat {
    if write_position(cursor) <= write_buffer(cursor).len() {
        (write_buffer(cursor).len() - write_position(cursor)) as nat
    } else {
        0
    }
}

/// `buffer` with `bytes` in place of what stood at `at`.
pub open spec fn overwritten(buffer: Seq<u8>, at: nat, bytes: Seq<u8>) -> Seq<u8> {
    Seq::new(
        buffer.len(),
        |i: int|
            if at <= i < at + bytes.len() {
                bytes[i - at]
            } else {
                buffer[i]
            },
    )
}

/// The cursor `before` became `after` by writing `bytes`.
pub open spec fn wrote(before: WriteCursor<'_>, after: WriteCursor<'_>, bytes: Seq<u8>) -> bool {
    &&& write_buffer(after) == overwritten(write_buffer(before), write_position(before), bytes)
    &&& write_position(after) == write_position(before) + bytes.len()
}

/// `ReadCursor::remaining` is what is left of the slice; past its end, nothing.
pub assume_specification<'a>[ ReadCursor::<'a>::remaining ](cursor: &ReadCursor<'a>) -> (rest:
    &'a [u8])
    ensures
        rest@ == unread(*cursor),
;

/// `ReadCursor::read_u8` reads one byte. It panics where there is none.
pub assume_specification<'a>[ ReadCursor::<'a>::read_u8 ](cursor: &mut ReadCursor<'a>) -> (value:
    u8)
    requires
        unread(*old(cursor)).len() >= 1,
    ensures
        value == unread(*old(cursor))[0],
        read_buffer(*final(cursor)) == read_buffer(*old(cursor)),
        read_position(*final(cursor)) == read_position(*old(cursor)) + 1,
;

/// `ReadCursor::read_u16` reads two bytes, lowest first. It panics where there are fewer.
pub assume_specification<'a>[ ReadCursor::<'a>::read_u16 ](cursor: &mut ReadCursor<'a>) -> (value:
    u16)
    requires
        unread(*old(cursor)).len() >= 2,
    ensures
        value == le_value(unread(*old(cursor)).take(2)),
        read_buffer(*final(cursor)) == read_buffer(*old(cursor)),
        read_position(*final(cursor)) == read_position(*old(cursor)) + 2,
;

/// `ReadCursor::read_u32` reads four bytes, lowest first. It panics where there are fewer.
pub assume_specification<'a>[ ReadCursor::<'a>::read_u32 ](cursor: &mut ReadCursor<'a>) -> (value:
    u32)
    requires
        unread(*old(cursor)).len() >= 4,
    ensures
        value == le_value(unread(*old(cursor)).take(4)),
        read_buffer(*final(cursor)) == read_buffer(*old(cursor)),
        read_position(*final(cursor)) == read_position(*old(cursor)) + 4,
;

/// `ReadCursor::read_i64` reads eight bytes, lowest first, in two's complement. It panics where
/// there are fewer.
pub assume_specification<'a>[ ReadCursor::<'a>::read_i64 ](cursor: &mut ReadCursor<'a>) -> (value:
    i64)
    requires
        unread(*old(cursor)).len() >= 8,
    ensures
        value == signed_64(le_value(unread(*old(cursor)).take(8))),
        read_buffer(*final(cursor)) == read_buffer(*old(cursor)),
        read_position(*final(cursor)) == read_position(*old(cursor)) + 8,
;

/// `ReadCursor::read_slice` hands out the next `count` bytes. It panics where there are fewer, and
/// past the end of the slice whatever `count` is.
pub assume_specification<'a>[ ReadCursor::<'a>::read_slice ](
    cursor: &mut ReadCursor<'a>,
    count: usize,
) -> (bytes: &'a [u8])
    requires
        read_position(*old(cursor)) + count <= read_buffer(*old(cursor)).len(),
    ensures
        bytes@ == unread(*old(cursor)).take(count as int),
        read_buffer(*final(cursor)) == read_buffer(*old(cursor)),
        read_position(*final(cursor)) == read_position(*old(cursor)) + count,
;

/// `WriteCursor::remaining` is what is left of the slice; past its end, nothing.
pub assume_specification<'a, 'b>[ WriteCursor::<'a>::remaining ](
    cursor: &'b WriteCursor<'a>,
) -> (rest: &'b [u8])
    ensures
        rest@.len() == room(*cursor),
        forall|i: int|
            0 <= i < rest@.len() ==> rest@[i] == write_buffer(*cursor)[write_position(*cursor) + i],
;

/// `WriteCursor::write_u8` writes one byte. It panics where there is no room.
pub assume_specification<'a>[ WriteCursor::<'a>::write_u8 ](
    cursor: &mut WriteCursor<'a>,
    value: u8,
)
    requires
        room(*old(cursor)) >= 1,
    ensures
        wrote(*old(cursor), *final(cursor), seq![value]),
;

/// `WriteCursor::write_u16` writes two bytes, lowest first. It panics where there is no room.
pub assume_specification<'a>[ WriteCursor::<'a>::write_u16 ](
    cursor: &mut WriteCursor<'a>,
    value: u16,
)
    requires
        room(*old(cursor)) >= 2,
    ensures
        wrote(*old(cursor), *final(cursor), le_bytes(value as nat, 2)),
;

/// `WriteCursor::write_u32` writes four bytes, lowest first. It panics where there is no room.
pub assume_specification<'a>[ WriteCursor::<'a>::write_u32 ](
    cursor: &mut WriteCursor<'a>,
    value: u32,
)
    requires
        room(*old(cursor)) >= 4,
    ensures
        wrote(*old(cursor), *final(cursor), le_bytes(value as nat, 4)),
;

/// `WriteCursor::write_i64` writes eight bytes, lowest first, in two's complement. It panics where
/// there is no room.
pub assume_specification<'a>[ WriteCursor::<'a>::write_i64 ](
    cursor: &mut WriteCursor<'a>,
    value: i64,
)
    requires
        room(*old(cursor)) >= 8,
    ensures
        wrote(*old(cursor), *final(cursor), le_bytes(unsigned_64(value), 8)),
;

/// `WriteCursor::write_slice` writes `bytes`. It panics where there is no room, and past the end of
/// the slice even for no bytes.
pub assume_specification<'a>[ WriteCursor::<'a>::write_slice ](
    cursor: &mut WriteCursor<'a>,
    bytes: &[u8],
)
    requires
        write_position(*old(cursor)) + bytes@.len() <= write_buffer(*old(cursor)).len(),
    ensures
        wrote(*old(cursor), *final(cursor), bytes@),
;

pub(crate) proof fn lemma_advanced(before: ReadCursor<'_>, after: ReadCursor<'_>, count: nat)
    requires
        advanced(before, after, count),
        count <= unread(before).len(),
        read_position(before) <= read_buffer(before).len(),
    ensures
        unread(after) == unread(before).skip(count as int),
        read_position(after) <= read_buffer(after).len(),
{
    assert(unread(after) =~= unread(before).skip(count as int));
}

pub(crate) proof fn lemma_wrote(
    first: WriteCursor<'_>,
    second: WriteCursor<'_>,
    third: WriteCursor<'_>,
    bytes: Seq<u8>,
    more: Seq<u8>,
)
    requires
        wrote(first, second, bytes),
        wrote(second, third, more),
        bytes.len() <= room(first),
    ensures
        wrote(first, third, bytes + more),
{
    assert(write_buffer(third) =~= overwritten(
        write_buffer(first),
        write_position(first),
        bytes + more,
    ));
}

pub(crate) proof fn lemma_wrote_nothing(cursor: WriteCursor<'_>)
    ensures
        wrote(cursor, cursor, Seq::empty()),
{
    assert(write_buffer(cursor) =~= overwritten(
        write_buffer(cursor),
        write_position(cursor),
        Seq::empty(),
    ));
}

// ---------------------------------------------------------------------------
// Strings
// ---------------------------------------------------------------------------

/// `String::from_utf8`'s error.
#[verifier::external_type_specification]
#[verifier::external_body]
pub struct ExFromUtf8Error(std::string::FromUtf8Error);

/// `String::from_utf8` decodes bytes that are valid UTF-8, and refuses others.
pub assume_specification[ String::from_utf8 ](bytes: Vec<u8>) -> (text: Result<
    String,
    std::string::FromUtf8Error,
>)
    ensures
        text is Ok <==> valid_utf8(bytes@),
        text matches Ok(text) ==> text@ == decode_utf8(bytes@),
;

/// `size` where a `usize` can hold it, and else the greatest `usize`.
pub open spec fn clamped(size: nat) -> usize {
    if size <= usize::MAX {
        size as usize
    } else {
        usize::MAX
    }
}

/// Size on the wire of a length-prefixed UTF-8 string.
pub open spec fn string_length(text: Seq<char>) -> nat {
    4 + encode_utf8(text).len()
}

/// Size on the wire of an optional length-prefixed UTF-8 string.
pub open spec fn opt_string_length(text: Option<Seq<char>>) -> nat {
    match text {
        Some(text) => 1 + string_length(text),
        None => 1,
    }
}

/// A string on the wire: its length in bytes, then its bytes.
pub open spec fn string_bytes(text: Seq<char>) -> Seq<u8> {
    le_bytes(encode_utf8(text).len(), 4) + encode_utf8(text)
}

/// An optional string on the wire: a flag, then the string if there is one.
pub open spec fn opt_string_bytes(text: Option<Seq<char>>) -> Seq<u8> {
    match text {
        Some(text) => seq![1u8] + string_bytes(text),
        None => seq![0u8],
    }
}

/// The length of `text` fits its prefix.
pub open spec fn string_fits(text: Seq<char>) -> bool {
    encode_utf8(text).len() <= u32::MAX
}

/// What comes of writing a string where `space` bytes can be written, and the bytes that are.
pub open spec fn string_written(space: nat, text: Seq<char>) -> (Result<(), WireError>, Seq<u8>) {
    if space < string_length(text) {
        (
            Err(
                WireError::NotEnoughBytes {
                    received: space as usize,
                    expected: clamped(string_length(text)),
                },
            ),
            Seq::empty(),
        )
    } else if !string_fits(text) {
        (
            Err(
                WireError::InvalidField { field: "string length", reason: "too many elements" },
            ),
            Seq::empty(),
        )
    } else {
        (Ok(()), string_bytes(text))
    }
}

/// What comes of writing an optional string where `space` bytes can be written, and the bytes that
/// are.
pub open spec fn opt_string_written(space: nat, text: Option<Seq<char>>) -> (
    Result<(), WireError>,
    Seq<u8>,
) {
    if space < 1 {
        (Err(WireError::NotEnoughBytes { received: 0, expected: 1 }), Seq::empty())
    } else {
        match text {
            Some(text) => {
                let (outcome, bytes) = string_written((space - 1) as nat, text);
                (outcome, seq![1u8] + bytes)
            },
            None => (Ok(()), seq![0u8]),
        }
    }
}

/// The string at the start of `bytes`, and how many bytes are consumed in reading it.
pub open spec fn string_read(bytes: Seq<u8>) -> (Result<Seq<char>, WireError>, nat) {
    if bytes.len() < 4 {
        (Err(WireError::NotEnoughBytes { received: bytes.len() as usize, expected: 4 }), 0)
    } else {
        let length = le_value(bytes.take(4));
        let rest = bytes.skip(4);
        if rest.len() < length {
            (
                Err(
                    WireError::NotEnoughBytes {
                        received: rest.len() as usize,
                        expected: length as usize,
                    },
                ),
                4,
            )
        } else if !valid_utf8(rest.take(length as int)) {
            (
                Err(WireError::InvalidField { field: "string", reason: "not valid UTF-8" }),
                4 + length,
            )
        } else {
            (Ok(decode_utf8(rest.take(length as int))), 4 + length)
        }
    }
}

/// The optional string at the start of `bytes`, and how many bytes are consumed in reading it.
pub open spec fn opt_string_read(bytes: Seq<u8>) -> (Result<Option<Seq<char>>, WireError>, nat) {
    if bytes.len() < 1 {
        (Err(WireError::NotEnoughBytes { received: 0, expected: 1 }), 0)
    } else if bytes[0] == 0 {
        (Ok(None), 1)
    } else if bytes[0] == 1 {
        match string_read(bytes.skip(1)) {
            (Ok(text), count) => (Ok(Some(text)), 1 + count),
            (Err(error), count) => (Err(error), 1 + count),
        }
    } else {
        (
            Err(
                WireError::InvalidField {
                    field: "optional string",
                    reason: "invalid presence flag",
                },
            ),
            1,
        )
    }
}

/// The mathematical value of a string that was read.
pub open spec fn read_text(outcome: Result<String, WireError>) -> Result<Seq<char>, WireError> {
    match outcome {
        Ok(text) => Ok(text@),
        Err(error) => Err(error),
    }
}

/// The mathematical value of an optional string.
pub open spec fn opt_text(text: Option<String>) -> Option<Seq<char>> {
    match text {
        Some(text) => Some(text@),
        None => None,
    }
}

/// The mathematical value of an optional string that was read.
pub open spec fn read_opt_text(outcome: Result<Option<String>, WireError>) -> Result<
    Option<Seq<char>>,
    WireError,
> {
    match outcome {
        Ok(text) => Ok(opt_text(text)),
        Err(error) => Err(error),
    }
}

/// Fails unless `size` bytes can be written.
pub(crate) fn ensure_room(dst: &WriteCursor<'_>, size: usize) -> (outcome: Result<(), WireError>)
    ensures
        room(*dst) <= usize::MAX,
        outcome == if room(*dst) < size {
            Err::<(), WireError>(
                WireError::NotEnoughBytes { received: room(*dst) as usize, expected: size },
            )
        } else {
            Ok(())
        },
{
    let received: usize = dst.remaining().len();
    if received < size {
        Err(WireError::NotEnoughBytes { received, expected: size })
    } else {
        Ok(())
    }
}

/// Fails unless `size` bytes can be read.
pub(crate) fn ensure_unread(src: &ReadCursor<'_>, size: usize) -> (outcome: Result<(), WireError>)
    ensures
        unread(*src).len() <= usize::MAX,
        outcome == if unread(*src).len() < size {
            Err::<(), WireError>(
                WireError::NotEnoughBytes {
                    received: unread(*src).len() as usize,
                    expected: size,
                },
            )
        } else {
            Ok(())
        },
{
    let received: usize = src.remaining().len();
    if received < size {
        Err(WireError::NotEnoughBytes { received, expected: size })
    } else {
        Ok(())
    }
}

/// Size on the wire of a length-prefixed UTF-8 string.
pub fn string_size(value: &str) -> (size: usize)
    ensures
        size == clamped(string_length(value@)),
{
    let length: usize = value.as_bytes().len();
    length.saturating_add(4)
}

/// Size on the wire of an optional length-prefixed UTF-8 string.
pub fn opt_string_size(value: Option<&str>) -> (size: usize)
    ensures
        size == clamped(
            opt_string_length(
                match value {
                    Some(value) => Some(value@),
                    None => None,
                },
            ),
        ),
{
    match value {
        Some(value) => string_size(value).saturating_add(1),
        None => 1,
    }
}

/// Writes a string: its length in bytes, then its bytes.
pub fn write_string(dst: &mut WriteCursor<'_>, value: &str) -> (outcome: Result<(), WireError>)
    ensures
        outcome == string_written(room(*old(dst)), value@).0,
        wrote(*old(dst), *final(dst), string_written(room(*old(dst)), value@).1),
{
    proof {
        lemma_wrote_nothing(*dst);
        lemma_le_bytes_len(encode_utf8(value@).len(), 4);
    }
    let bytes: &[u8] = value.as_bytes();
    let ghost before = *dst;
    let length: usize = bytes.len();
    let received: usize = dst.remaining().len();
    if received < 4 || received - 4 < length {
        return Err(WireError::NotEnoughBytes { received, expected: string_size(value) });
    }
    if length > u32::MAX as usize {
        return Err(
            WireError::InvalidField { field: "string length", reason: "too many elements" },
        );
    }
    dst.write_u32(length as u32);
    let ghost between = *dst;
    dst.write_slice(bytes);
    proof {
        lemma_wrote(before, between, *dst, le_bytes(length as nat, 4), bytes@);
    }
    Ok(())
}

/// Reads a string that [`write_string`] writes.
pub fn read_string(src: &mut ReadCursor<'_>) -> (outcome: Result<String, WireError>)
    ensures
        read_text(outcome) == string_read(unread(*old(src))).0,
        advanced(*old(src), *final(src), string_read(unread(*old(src))).1),
{
    let ghost before = *src;
    match ensure_unread(src, 4) {
        Ok(()) => {},
        Err(error) => {
            return Err(error);
        },
    }
    let length: usize = src.read_u32() as usize;
    proof {
        lemma_advanced(before, *src, 4);
    }
    let ghost between = *src;
    match ensure_unread(src, length) {
        Ok(()) => {},
        Err(error) => {
            return Err(error);
        },
    }
    let bytes: &[u8] = src.read_slice(length);
    match String::from_utf8(slice_to_vec(bytes)) {
        Ok(text) => Ok(text),
        Err(_) => Err(WireError::InvalidField { field: "string", reason: "not valid UTF-8" }),
    }
}

/// Writes an optional string: a flag, then the string if there is one.
pub fn write_opt_string(dst: &mut WriteCursor<'_>, value: Option<&str>) -> (outcome: Result<
    (),
    WireError,
>)
    ensures
        ({
            let text = match value {
                Some(value) => Some(value@),
                None => None,
            };
            &&& outcome == opt_string_written(room(*old(dst)), text).0
            &&& wrote(*old(dst), *final(dst), opt_string_written(room(*old(dst)), text).1)
        }),
{
    proof {
        lemma_wrote_nothing(*dst);
    }
    let ghost before = *dst;
    match ensure_room(dst, 1) {
        Ok(()) => {},
        Err(error) => {
            return Err(error);
        },
    }
    match value {
        Some(value) => {
            dst.write_u8(1);
            let ghost between = *dst;
            let outcome = write_string(dst, value);
            proof {
                lemma_wrote(
                    before,
                    between,
                    *dst,
                    seq![1u8],
                    string_written(room(between), value@).1,
                );
            }
            outcome
        },
        None => {
            dst.write_u8(0);
            Ok(())
        },
    }
}

/// Reads an optional string that [`write_opt_string`] writes.
pub fn read_opt_string(src: &mut ReadCursor<'_>) -> (outcome: Result<Option<String>, WireError>)
    ensures
        read_opt_text(outcome) == opt_string_read(unread(*old(src))).0,
        advanced(*old(src), *final(src), opt_string_read(unread(*old(src))).1),
{
    let ghost before = *src;
    match ensure_unread(src, 1) {
        Ok(()) => {},
        Err(error) => {
            return Err(error);
        },
    }
    let flag: u8 = src.read_u8();
    proof {
        lemma_advanced(before, *src, 1);
    }
    if flag == 0 {
        Ok(None)
    } else if flag == 1 {
        match read_string(src) {
            Ok(text) => Ok(Some(text)),
            Err(error) => Err(error),
        }
    } else {
        Err(
            WireError::InvalidField { field: "optional string", reason: "invalid presence flag" },
        )
    }
}

// ---------------------------------------------------------------------------
// Booleans and characters
// ---------------------------------------------------------------------------

/// `char::from_u32` gives the character with this code point, if there is one: surrogates and what
/// lies above the last code point are none.
pub assume_specification[ char::from_u32 ](code: u32) -> (ch: Option<char>)
    ensures
        ch == char_of(code),
;

/// The character with this code point.
pub open spec fn char_of(code: u32) -> Option<char> {
    if code < 0xd800 || 0xdfff < code <= 0x10ffff {
        Some(code as char)
    } else {
        None
    }
}

/// A flag on the wire.
pub open spec fn bool_byte(value: bool) -> u8 {
    if value {
        1
    } else {
        0
    }
}

/// What comes of writing `bytes` where `space` bytes can be written, and the bytes that are.
pub open spec fn fixed_written(space: nat, bytes: Seq<u8>) -> (Result<(), WireError>, Seq<u8>) {
    if space < bytes.len() {
        (
            Err(
                WireError::NotEnoughBytes {
                    received: space as usize,
                    expected: bytes.len() as usize,
                },
            ),
            Seq::empty(),
        )
    } else {
        (Ok(()), bytes)
    }
}

/// The flag at the start of `bytes`, and how many bytes are consumed in reading it.
pub open spec fn bool_read(bytes: Seq<u8>) -> (Result<bool, WireError>, nat) {
    if bytes.len() < 1 {
        (Err(WireError::NotEnoughBytes { received: 0, expected: 1 }), 0)
    } else {
        (Ok(bytes[0] != 0), 1)
    }
}

/// The character at the start of `bytes`, and how many bytes are consumed in reading it.
pub open spec fn char_read(bytes: Seq<u8>) -> (Result<char, WireError>, nat) {
    if bytes.len() < 4 {
        (Err(WireError::NotEnoughBytes { received: bytes.len() as usize, expected: 4 }), 0)
    } else {
        match char_of(le_value(bytes.take(4)) as u32) {
            Some(ch) => (Ok(ch), 4),
            None => (
                Err(
                    WireError::InvalidField {
                        field: "char",
                        reason: "not a valid Unicode scalar value",
                    },
                ),
                4,
            ),
        }
    }
}

/// Writes a flag.
pub fn write_bool(dst: &mut WriteCursor<'_>, value: bool) -> (outcome: Result<(), WireError>)
    ensures
        outcome == fixed_written(room(*old(dst)), seq![bool_byte(value)]).0,
        wrote(*old(dst), *final(dst), fixed_written(room(*old(dst)), seq![bool_byte(value)]).1),
{
    proof {
        lemma_wrote_nothing(*dst);
    }
    match ensure_room(dst, 1) {
        Ok(()) => {},
        Err(error) => {
            return Err(error);
        },
    }
    dst.write_u8(
        if value {
            1
        } else {
            0
        },
    );
    Ok(())
}

/// Reads a flag; anything but zero is set.
pub fn read_bool(src: &mut ReadCursor<'_>) -> (outcome: Result<bool, WireError>)
    ensures
        outcome == bool_read(unread(*old(src))).0,
        advanced(*old(src), *final(src), bool_read(unread(*old(src))).1),
{
    match ensure_unread(src, 1) {
        Ok(()) => {},
        Err(error) => {
            return Err(error);
        },
    }
    Ok(src.read_u8() != 0)
}

/// Writes a character, as its code point.
pub fn write_char(dst: &mut WriteCursor<'_>, value: char) -> (outcome: Result<(), WireError>)
    ensures
        outcome == fixed_written(room(*old(dst)), le_bytes(value as nat, 4)).0,
        wrote(*old(dst), *final(dst), fixed_written(room(*old(dst)), le_bytes(value as nat, 4)).1),
{
    proof {
        lemma_wrote_nothing(*dst);
        lemma_le_bytes_len(value as nat, 4);
    }
    match ensure_room(dst, 4) {
        Ok(()) => {},
        Err(error) => {
            return Err(error);
        },
    }
    dst.write_u32(value as u32);
    Ok(())
}

/// Reads a character that [`write_char`] writes.
pub fn read_char(src: &mut ReadCursor<'_>) -> (outcome: Result<char, WireError>)
    ensures
        outcome == char_read(unread(*old(src))).0,
        advanced(*old(src), *final(src), char_read(unread(*old(src))).1),
{
    match ensure_unread(src, 4) {
        Ok(()) => {},
        Err(error) => {
            return Err(error);
        },
    }
    let code: u32 = src.read_u32();
    match char::from_u32(code) {
        Some(ch) => Ok(ch),
        None => Err(
            WireError::InvalidField { field: "char", reason: "not a valid Unicode scalar value" },
        ),
    }
}

// ---------------------------------------------------------------------------
// Laws
// ---------------------------------------------------------------------------

/// A string takes as many bytes as its size says.
pub proof fn string_size_is_what_is_written(text: Seq<char>)
    ensures
        string_bytes(text).len() == string_length(text),
{
    lemma_le_bytes_len(encode_utf8(text).len(), 4);
}

/// An optional string takes as many bytes as its size says.
pub proof fn opt_string_size_is_what_is_written(text: Option<Seq<char>>)
    ensures
        opt_string_bytes(text).len() == opt_string_length(text),
{
    if let Some(text) = text {
        string_size_is_what_is_written(text);
    }
}

/// A string reads back as it was written, whatever follows it, and exactly its bytes are consumed.
pub proof fn strings_read_back(text: Seq<char>, following: Seq<u8>)
    requires
        string_fits(text),
    ensures
        string_read(string_bytes(text) + following) == (
            Ok::<Seq<char>, WireError>(text),
            string_bytes(text).len(),
        ),
{
    broadcast use vstd::utf8::encode_utf8_valid_utf8;
    broadcast use vstd::utf8::encode_utf8_decode_utf8;

    let encoded = encode_utf8(text);
    let bytes = string_bytes(text) + following;
    lemma_le_limits();
    le_bytes_read_back(encoded.len(), 4);
    assert(bytes.take(4) =~= le_bytes(encoded.len(), 4));
    assert(bytes.skip(4).take(encoded.len() as int) =~= encoded);
}

/// An optional string reads back as it was written, whatever follows it, and exactly its bytes are
/// consumed.
pub proof fn opt_strings_read_back(text: Option<Seq<char>>, following: Seq<u8>)
    requires
        text matches Some(text) ==> string_fits(text),
    ensures
        opt_string_read(opt_string_bytes(text) + following) == (
            Ok::<Option<Seq<char>>, WireError>(text),
            opt_string_bytes(text).len(),
        ),
{
    if let Some(text) = text {
        strings_read_back(text, following);
        assert((opt_string_bytes(Some(text)) + following).skip(1) =~= string_bytes(text)
            + following);
    }
}

/// A flag reads back as it was written, whatever follows it, and exactly its byte is consumed.
pub proof fn bools_read_back(value: bool, following: Seq<u8>)
    ensures
        bool_read(seq![bool_byte(value)] + following) == (Ok::<bool, WireError>(value), 1nat),
{
}

/// A character reads back as it was written, whatever follows it, and exactly its bytes are
/// consumed.
pub proof fn chars_read_back(value: char, following: Seq<u8>)
    ensures
        char_read(le_bytes(value as nat, 4) + following) == (Ok::<char, WireError>(value), 4nat),
{
    let bytes = le_bytes(value as nat, 4) + following;
    lemma_le_limits();
    le_bytes_read_back(value as nat, 4);
    assert(bytes.take(4) =~= le_bytes(value as nat, 4));
}

} // verus!

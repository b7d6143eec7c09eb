//! How numbers, texts and properties are laid out and read, said of the bytes themselves.

use vstd::prelude::*;
use vstd::utf8::{encode_utf8, valid_utf8};

use super::propertyset::{
    layered, lemma_joined, lemma_one_is_read, lemma_one_more_is_read, pair_bytes, pair_fits,
    pair_read, pair_written, pairs_bytes, pairs_read, pairs_written, set_bytes, set_fits, set_read,
    set_size_is_what_is_written, set_written, sets_read_back,
};
use super::{
    bool_byte, bool_read, char_of, char_read, clamped, fixed_written, le_bytes, le_bytes_read_back,
    le_value, lemma_le_bytes_len, lemma_le_limits, opt_string_bytes, opt_string_read,
    opt_string_written, string_bytes, string_read, string_written, strings_read_back, unsigned_64,
    WireError,
};
use crate::properties::{PropertyMap, PropertyPair, PropertyValue};

verus! {

// ---------------------------------------------------------------------------
// Numbers
// ---------------------------------------------------------------------------

/// Numbers of sixteen and of thirty-two bits are laid out lowest byte first.
pub proof fn numbers_are_laid_out_lowest_byte_first(number: nat)
    ensures
        le_bytes(number, 2) == seq![(number % 256) as u8, (number / 256 % 256) as u8],
        le_bytes(number, 4) == seq![
            (number % 256) as u8,
            (number / 256 % 256) as u8,
            (number / 256 / 256 % 256) as u8,
            (number / 256 / 256 / 256 % 256) as u8,
        ],
{
    reveal_with_fuel(le_bytes, 5);
    assert(le_bytes(number, 2) =~= seq![(number % 256) as u8, (number / 256 % 256) as u8]);
    assert(le_bytes(number, 4) =~= seq![
        (number % 256) as u8,
        (number / 256 % 256) as u8,
        (number / 256 / 256 % 256) as u8,
        (number / 256 / 256 / 256 % 256) as u8,
    ]);
}

/// Each byte counts 256 times what the one before it does.
pub proof fn bytes_count_for_their_place(first: u8, rest: Seq<u8>)
    ensures
        le_value(Seq::empty()) == 0,
        le_value(seq![first] + rest) == first + 256 * le_value(rest),
{
    assert((seq![first] + rest).skip(1) =~= rest);
}

/// A number that is not negative has its own bits, and a negative one those of its sum with 2^64.
pub proof fn negative_numbers_count_from_the_end(number: i64)
    ensures
        number >= 0 ==> unsigned_64(number) == number,
        number < 0 ==> unsigned_64(number) == number + 0x1_0000_0000_0000_0000,
{
}

/// Flags are laid out as one byte, one or zero; a byte is read as a flag that is set unless it is
/// zero, and none cannot be read.
pub proof fn any_byte_but_zero_is_a_set_flag(first: u8, rest: Seq<u8>)
    ensures
        bool_byte(true) == 1,
        bool_byte(false) == 0,
        bool_read(seq![first] + rest) == (Ok::<bool, WireError>(first != 0), 1nat),
        bool_read(Seq::empty()) == (
            Err::<bool, WireError>(WireError::NotEnoughBytes { received: 0, expected: 1 }),
            0nat,
        ),
{
}

/// Four bytes are read as the character of that number, and refused where there is none: among the
/// surrogates and above the last one. Fewer bytes are too few.
pub proof fn characters_are_read_by_number(bytes: Seq<u8>, number: u32)
    ensures
        bytes.len() < 4 ==> char_read(bytes) == (
            Err::<char, WireError>(
                WireError::NotEnoughBytes { received: bytes.len() as usize, expected: 4 },
            ),
            0nat,
        ),
        0xd800 <= number <= 0xdfff || 0x10ffff < number ==> char_read(
            le_bytes(number as nat, 4) + bytes,
        ) == (
            Err::<char, WireError>(
                WireError::InvalidField {
                    field: "char",
                    reason: "not a valid Unicode scalar value",
                },
            ),
            4nat,
        ),
        number < 0xd800 || 0xdfff < number <= 0x10ffff ==> char_read(
            le_bytes(number as nat, 4) + bytes,
        ) == (Ok::<char, WireError>(number as char), 4nat) && char_of(number) == Some(
            number as char,
        ),
{
    lemma_le_limits();
    le_bytes_read_back(number as nat, 4);
    assert((le_bytes(number as nat, 4) + bytes).take(4) =~= le_bytes(number as nat, 4));
}

/// Bytes are written whole where there is room for them, and not at all where there is not.
pub proof fn fixed_bytes_are_written_whole(space: nat, bytes: Seq<u8>)
    ensures
        fixed_written(space, bytes).0 is Ok <==> bytes.len() <= space,
        bytes.len() <= space ==> fixed_written(space, bytes).1 == bytes,
        space < bytes.len() ==> fixed_written(space, bytes) == (
            Err::<(), WireError>(
                WireError::NotEnoughBytes {
                    received: space as usize,
                    expected: bytes.len() as usize,
                },
            ),
            Seq::<u8>::empty(),
        ),
{
}

/// A size is given as it is where a `usize` can hold it, and as the greatest `usize` otherwise.
pub proof fn sizes_are_given_as_far_as_they_go(size: nat)
    ensures
        size <= usize::MAX ==> clamped(size) == size,
        size > usize::MAX ==> clamped(size) == usize::MAX,
{
}

// ---------------------------------------------------------------------------
// Texts
// ---------------------------------------------------------------------------

/// A text is laid out as the number of its bytes, in four bytes, and its bytes; one that may be
/// missing behind a byte that is one, and in its place a byte that is zero.
pub proof fn texts_are_laid_out_behind_their_length(text: Seq<char>)
    ensures
        string_bytes(text) == le_bytes(encode_utf8(text).len(), 4) + encode_utf8(text),
        string_bytes(text).len() == 4 + encode_utf8(text).len(),
        opt_string_bytes(Some(text)) == seq![1u8] + string_bytes(text),
        opt_string_bytes(None) == seq![0u8],
{
    lemma_le_bytes_len(encode_utf8(text).len(), 4);
}

/// What is read as a text is laid out as that text: no other bytes are read as it, and as many are
/// consumed as it takes.
pub proof fn texts_are_read_from_their_layout(bytes: Seq<u8>)
    ensures
        string_read(bytes) matches (Ok(text), count) ==> {
            &&& count <= bytes.len()
            &&& bytes.take(count as int) == string_bytes(text)
        },
        opt_string_read(bytes) matches (Ok(text), count) ==> {
            &&& count <= bytes.len()
            &&& bytes.take(count as int) == opt_string_bytes(text)
        },
{
    lemma_read_from_layout(bytes);
    if bytes.len() > 0 {
        let rest = bytes.skip(1);
        lemma_read_from_layout(rest);
        if let (Ok(text), count) = opt_string_read(bytes) {
            if let Some(text) = text {
                assert(bytes.take(count as int) =~= seq![1u8] + rest.take(count - 1));
            } else {
                assert(bytes.take(1) =~= seq![0u8]);
            }
        }
    }
}

proof fn lemma_read_from_layout(bytes: Seq<u8>)
    ensures
        string_read(bytes) matches (Ok(text), count) ==> {
            &&& count <= bytes.len()
            &&& bytes.take(count as int) == string_bytes(text)
        },
{
    broadcast use vstd::utf8::decode_utf8_encode_utf8;

    if let (Ok(text), count) = string_read(bytes) {
        let length = le_value(bytes.take(4));
        let body = bytes.skip(4).take(length as int);
        assert(encode_utf8(text) == body);
        lemma_bytes_of_value(bytes.take(4));
        assert(bytes.take(count as int) =~= bytes.take(4) + body);
    }
}

proof fn lemma_bytes_of_value(bytes: Seq<u8>)
    ensures
        le_bytes(le_value(bytes), bytes.len()) == bytes,
    decreases bytes.len(),
{
    if bytes.len() == 0 {
        assert(bytes =~= Seq::empty());
    } else {
        lemma_bytes_of_value(bytes.skip(1));
        let rest = le_value(bytes.skip(1));
        assert(le_value(bytes) % 256 == bytes[0] && le_value(bytes) / 256 == rest);
        assert(seq![bytes[0]] + bytes.skip(1) =~= bytes);
    }
}

/// A text whose layout is cut off is not read: its length must be there, and then as many bytes as
/// that says.
pub proof fn cut_texts_are_not_read(text: Seq<char>, length: nat)
    requires
        encode_utf8(text).len() <= u32::MAX,
        length < string_bytes(text).len(),
    ensures
        string_read(string_bytes(text).take(length as int)) == if length < 4 {
            (
                Err::<Seq<char>, WireError>(
                    WireError::NotEnoughBytes { received: length as usize, expected: 4 },
                ),
                0nat,
            )
        } else {
            (
                Err(
                    WireError::NotEnoughBytes {
                        received: (length - 4) as usize,
                        expected: encode_utf8(text).len() as usize,
                    },
                ),
                4nat,
            )
        },
{
    let encoded = encode_utf8(text);
    let bytes = string_bytes(text).take(length as int);
    lemma_le_limits();
    le_bytes_read_back(encoded.len(), 4);
    if length >= 4 {
        assert(bytes.take(4) =~= le_bytes(encoded.len(), 4));
    }
}

/// Bytes that are no text are refused for that, once they are consumed; and a flag that says
/// neither that there is a text nor that there is none is refused for that.
pub proof fn what_is_no_text_is_refused(body: Seq<u8>, following: Seq<u8>, flag: u8)
    requires
        body.len() <= u32::MAX,
        !valid_utf8(body),
    ensures
        string_read(le_bytes(body.len(), 4) + body + following) == (
            Err::<Seq<char>, WireError>(
                WireError::InvalidField { field: "string", reason: "not valid UTF-8" },
            ),
            4 + body.len(),
        ),
        flag > 1 ==> opt_string_read(seq![flag] + following) == (
            Err::<Option<Seq<char>>, WireError>(
                WireError::InvalidField {
                    field: "optional string",
                    reason: "invalid presence flag",
                },
            ),
            1nat,
        ),
        opt_string_read(Seq::empty()) == (
            Err::<Option<Seq<char>>, WireError>(
                WireError::NotEnoughBytes { received: 0, expected: 1 },
            ),
            0nat,
        ),
{
    let bytes = le_bytes(body.len(), 4) + body + following;
    lemma_le_limits();
    le_bytes_read_back(body.len(), 4);
    assert(bytes.take(4) =~= le_bytes(body.len(), 4));
    assert(bytes.skip(4).take(body.len() as int) =~= body);
}

/// A text is written as it is laid out wherever there is room for it and its length fits four
/// bytes, and not otherwise; so is one that may be missing, where its flag is written first.
pub proof fn texts_are_written_where_they_fit(space: nat, text: Seq<char>)
    ensures
        ({
            let size = 4 + encode_utf8(text).len();
            let fits = size <= space && encode_utf8(text).len() <= u32::MAX;
            &&& string_written(space, text).0 is Ok <==> fits
            &&& fits ==> string_written(space, text).1 == string_bytes(text)
            &&& !fits ==> string_written(space, text).1.len() == 0
            &&& size <= space && !fits ==> string_written(space, text).0 == Err::<(), WireError>(
                WireError::InvalidField { field: "string length", reason: "too many elements" },
            )
            &&& space < size <= usize::MAX ==> string_written(space, text).0 == Err::<
                (),
                WireError,
            >(WireError::NotEnoughBytes { received: space as usize, expected: size as usize })
            &&& opt_string_written(space + 1, Some(text)).0 == string_written(space, text).0
            &&& opt_string_written(space + 1, Some(text)).1 == seq![1u8] + string_written(
                space,
                text,
            ).1
        }),
        opt_string_written(space + 1, None) == (Ok::<(), WireError>(()), seq![0u8]),
        opt_string_written(0, Some(text)) == (
            Err::<(), WireError>(WireError::NotEnoughBytes { received: 0, expected: 1 }),
            Seq::<u8>::empty(),
        ),
        opt_string_written(0, None) == opt_string_written(0, Some(text)),
{
}

// ---------------------------------------------------------------------------
// Properties
// ---------------------------------------------------------------------------

/// A property is laid out as its key and its value behind a tag, zero for a number and one for a
/// text; properties one after the other; and a set of them behind their number, in four bytes.
pub proof fn properties_are_laid_out_in_turn(
    key: Seq<char>,
    text: Seq<char>,
    number: i64,
    first: Seq<PropertyPair>,
    second: Seq<PropertyPair>,
    pair: PropertyPair,
)
    ensures
        pair_bytes((key, PropertyValue::Str(text))) == string_bytes(key) + seq![1u8]
            + string_bytes(text),
        pair_bytes((key, PropertyValue::Int(number))) == string_bytes(key) + seq![0u8] + le_bytes(
            unsigned_64(number),
            8,
        ),
        pairs_bytes(first + second) == pairs_bytes(first) + pairs_bytes(second),
        pairs_bytes(seq![pair]) == pair_bytes(pair),
        pairs_bytes(Seq::empty()) == Seq::<u8>::empty(),
        set_bytes(first) == le_bytes(first.len(), 4) + pairs_bytes(first),
    decreases first.len(),
{
    assert(pair_bytes((key, PropertyValue::Str(text))) =~= string_bytes(key) + seq![1u8]
        + string_bytes(text));
    assert(pair_bytes((key, PropertyValue::Int(number))) =~= string_bytes(key) + seq![0u8]
        + le_bytes(unsigned_64(number), 8));
    reveal_with_fuel(pairs_bytes, 3);
    assert(seq![pair].skip(1) =~= Seq::empty());
    assert(pairs_bytes(seq![pair]) =~= pair_bytes(pair));
    if first.len() == 0 {
        assert(first + second =~= second);
        assert(pairs_bytes(first) + pairs_bytes(second) =~= pairs_bytes(second));
    } else {
        let rest = first.skip(1);
        assert((first + second).skip(1) =~= rest + second);
        properties_are_laid_out_in_turn(key, text, number, rest, second, pair);
        assert(pairs_bytes(first + second) =~= pairs_bytes(first) + pairs_bytes(second));
    }
}

/// A property whose value has a tag that is neither zero nor one is refused for that, and one whose
/// layout ends with its key for having too few bytes.
pub proof fn unknown_values_are_refused(key: Seq<char>, tag: u8, following: Seq<u8>)
    requires
        encode_utf8(key).len() <= u32::MAX,
        tag > 1,
    ensures
        pair_read(string_bytes(key) + (seq![tag] + following)) == (
            Err::<PropertyPair, WireError>(
                WireError::InvalidField { field: "property value tag", reason: "unknown tag" },
            ),
            string_bytes(key).len() + 1,
        ),
        pair_read(string_bytes(key)) == (
            Err::<PropertyPair, WireError>(
                WireError::NotEnoughBytes { received: 0, expected: 1 },
            ),
            string_bytes(key).len(),
        ),
{
    let bytes = string_bytes(key) + (seq![tag] + following);
    strings_read_back(key, seq![tag] + following);
    strings_read_back(key, Seq::empty());
    assert(string_bytes(key) + Seq::<u8>::empty() =~= string_bytes(key));
    assert(bytes.skip(string_bytes(key).len() as int) =~= seq![tag] + following);
}

/// Properties that stand before one that cannot be read are read, and the error is its own.
pub proof fn properties_before_an_error_are_read(
    entries: Seq<PropertyPair>,
    count: nat,
    following: Seq<u8>,
    error: WireError,
    consumed: nat,
)
    requires
        entries.len() < count <= u32::MAX,
        forall|i: int| 0 <= i < entries.len() ==> pair_fits(#[trigger] entries[i]),
        pair_read(following) == (Err::<PropertyPair, WireError>(error), consumed),
    ensures
        set_read(le_bytes(count, 4) + (pairs_bytes(entries) + following)) == (
            Err::<(), WireError>(error),
            entries,
            4 + pairs_bytes(entries).len() + consumed,
        ),
{
    let rest = pairs_bytes(entries) + following;
    let bytes = le_bytes(count, 4) + rest;
    lemma_le_limits();
    le_bytes_read_back(count, 4);
    assert(bytes.take(4) =~= le_bytes(count, 4));
    assert(bytes.skip(4) =~= rest);
    lemma_read_up_to_an_error(entries, count, following, error, consumed);
}

proof fn lemma_none_is_read(count: nat, bytes: Seq<u8>, error: WireError, consumed: nat)
    requires
        count > 0,
        pair_read(bytes) == (Err::<PropertyPair, WireError>(error), consumed),
    ensures
        pairs_read(count, bytes) == (
            Err::<(), WireError>(error),
            Seq::<PropertyPair>::empty(),
            consumed,
        ),
{
}

proof fn lemma_read_up_to_an_error(
    entries: Seq<PropertyPair>,
    count: nat,
    following: Seq<u8>,
    error: WireError,
    consumed: nat,
)
    requires
        entries.len() < count,
        forall|i: int| 0 <= i < entries.len() ==> pair_fits(#[trigger] entries[i]),
        pair_read(following) == (Err::<PropertyPair, WireError>(error), consumed),
    ensures
        pairs_read(count, pairs_bytes(entries) + following) == (
            Err::<(), WireError>(error),
            entries,
            pairs_bytes(entries).len() + consumed,
        ),
    decreases entries.len(),
{
    if entries.len() == 0 {
        assert(entries =~= Seq::empty());
        assert(pairs_bytes(entries) + following =~= following);
        lemma_none_is_read(count, following, error, consumed);
    } else {
        let rest = entries.skip(1);
        let pair = entries[0];
        let after = pairs_bytes(rest) + following;
        assert(pair_fits(pair));
        assert forall|i: int| 0 <= i < rest.len() implies pair_fits(#[trigger] rest[i]) by {
            assert(rest[i] == entries[i + 1]);
        }
        lemma_read_up_to_an_error(rest, (count - 1) as nat, following, error, consumed);
        lemma_one_more_is_read(count, pair, after);
        lemma_joined(entries, following);
        assert(seq![pair] + rest =~= entries);
    }
}

/// Fewer than four bytes hold no set of properties.
pub proof fn sets_need_their_count(bytes: Seq<u8>)
    requires
        bytes.len() < 4,
    ensures
        set_read(bytes) == (
            Err::<(), WireError>(
                WireError::NotEnoughBytes { received: bytes.len() as usize, expected: 4 },
            ),
            Seq::<PropertyPair>::empty(),
            0nat,
        ),
{
}

/// Inserting properties in turn gives a key the value that comes last under it, and leaves what is
/// under other keys.
pub proof fn the_last_value_wins(
    map: PropertyMap,
    entries: Seq<PropertyPair>,
    pair: PropertyPair,
    key: Seq<char>,
)
    ensures
        layered(map, Seq::empty()) == map,
        layered(map, entries.push(pair)).contains_key(pair.0),
        layered(map, entries.push(pair))[pair.0] == pair.1,
        key != pair.0 ==> layered(map, entries.push(pair)).contains_key(key) == layered(
            map,
            entries,
        ).contains_key(key),
        key != pair.0 && layered(map, entries).contains_key(key) ==> layered(
            map,
            entries.push(pair),
        )[key] == layered(map, entries)[key],
{
    assert(entries.push(pair).drop_last() =~= entries);
}

/// The key and the value of a property, as far as they are texts, have lengths that fit four bytes.
pub open spec fn has_short_texts(pair: PropertyPair) -> bool {
    &&& encode_utf8(pair.0).len() <= u32::MAX
    &&& pair.1 matches PropertyValue::Str(text) ==> encode_utf8(text).len() <= u32::MAX
}

proof fn lemma_short_texts_are_written(entries: Seq<PropertyPair>)
    ensures
        pairs_written(entries).0 is Ok <==> forall|i: int|
            0 <= i < entries.len() ==> has_short_texts(#[trigger] entries[i]),
        pairs_written(entries).0 is Err ==> pairs_written(entries).0 == Err::<(), WireError>(
            WireError::InvalidField { field: "string length", reason: "too many elements" },
        ),
    decreases entries.len(),
{
    if entries.len() > 0 {
        let rest = entries.skip(1);
        lemma_short_texts_are_written(rest);
        assert(pair_written(entries[0]).0 is Ok <==> has_short_texts(entries[0]));
        if forall|i: int| 0 <= i < entries.len() ==> has_short_texts(#[trigger] entries[i]) {
            assert forall|i: int| 0 <= i < rest.len() implies has_short_texts(
                #[trigger] rest[i],
            ) by {
                assert(rest[i] == entries[i + 1]);
            }
        }
        if has_short_texts(entries[0]) && forall|i: int|
            0 <= i < rest.len() ==> has_short_texts(#[trigger] rest[i]) {
            assert forall|i: int| 0 <= i < entries.len() implies has_short_texts(
                #[trigger] entries[i],
            ) by {
                if i > 0 {
                    assert(entries[i] == rest[i - 1]);
                }
            }
        }
    }
}

/// A set of properties is written exactly where there is room for it, its count fits four bytes and
/// so do the lengths of its texts; a count or a text that is too long is named.
pub proof fn sets_are_written_where_they_fit(space: nat, entries: Seq<PropertyPair>)
    ensures
        ({
            let short = forall|i: int|
                0 <= i < entries.len() ==> has_short_texts(#[trigger] entries[i]);
            let roomy = set_bytes(entries).len() <= space;
            &&& set_written(space, entries).0 is Ok <==> roomy && entries.len() <= u32::MAX && short
            &&& roomy && entries.len() > u32::MAX ==> set_written(space, entries).0 == Err::<
                (),
                WireError,
            >(WireError::InvalidField { field: "property count", reason: "too many elements" })
            &&& roomy && entries.len() <= u32::MAX && !short ==> set_written(space, entries).0
                == Err::<(), WireError>(
                WireError::InvalidField { field: "string length", reason: "too many elements" },
            )
        }),
{
    set_size_is_what_is_written(entries);
    lemma_short_texts_are_written(entries);
}

/// Properties are not written where there is no room for them: nothing is.
pub proof fn sets_are_not_written_without_room(space: nat, entries: Seq<PropertyPair>)
    requires
        space < set_bytes(entries).len(),
    ensures
        set_written(space, entries).0 is Err,
        set_written(space, entries).1.len() == 0,
{
    set_size_is_what_is_written(entries);
}

// ---------------------------------------------------------------------------
// What follows
// ---------------------------------------------------------------------------

/// What follows a text, a flag or a character that can be read does not matter to it.
pub proof fn what_follows_a_value_does_not_matter(bytes: Seq<u8>, following: Seq<u8>)
    ensures
        string_read(bytes).0 is Ok ==> string_read(bytes + following) == string_read(bytes)
            && string_read(bytes).1 <= bytes.len(),
        opt_string_read(bytes).0 is Ok ==> opt_string_read(bytes + following) == opt_string_read(
            bytes,
        ) && opt_string_read(bytes).1 <= bytes.len(),
        bool_read(bytes).0 is Ok ==> bool_read(bytes + following) == bool_read(bytes) && bool_read(
            bytes,
        ).1 <= bytes.len(),
        char_read(bytes).0 is Ok ==> char_read(bytes + following) == char_read(bytes) && char_read(
            bytes,
        ).1 <= bytes.len(),
{
    lemma_text_before(bytes, following);
    if bytes.len() > 0 {
        lemma_text_before(bytes.skip(1), following);
        assert((bytes + following).skip(1) =~= bytes.skip(1) + following);
    }
    if bytes.len() >= 4 {
        assert((bytes + following).take(4) =~= bytes.take(4));
    }
}

proof fn lemma_text_before(bytes: Seq<u8>, following: Seq<u8>)
    ensures
        string_read(bytes).0 is Ok ==> string_read(bytes + following) == string_read(bytes)
            && string_read(bytes).1 <= bytes.len(),
{
    if string_read(bytes).0 is Ok {
        let length = le_value(bytes.take(4)) as int;
        assert((bytes + following).take(4) =~= bytes.take(4));
        assert((bytes + following).skip(4).take(length) =~= bytes.skip(4).take(length));
    }
}

/// What follows a property that can be read does not matter to it.
pub proof fn what_follows_a_property_does_not_matter(bytes: Seq<u8>, following: Seq<u8>)
    requires
        pair_read(bytes).0 is Ok,
    ensures
        pair_read(bytes + following) == pair_read(bytes),
        pair_read(bytes).1 <= bytes.len(),
{
    let count = string_read(bytes).1 as int;
    let rest = bytes.skip(count);
    lemma_text_before(bytes, following);
    assert((bytes + following).skip(count) =~= rest + following);
    assert((rest + following).skip(1) =~= rest.skip(1) + following);
    if rest[0] == 0 {
        assert((rest.skip(1) + following).take(8) =~= rest.skip(1).take(8));
    } else {
        lemma_text_before(rest.skip(1), following);
    }
}

proof fn lemma_properties_before(count: nat, bytes: Seq<u8>, following: Seq<u8>)
    requires
        pairs_read(count, bytes).0 is Ok,
    ensures
        pairs_read(count, bytes + following) == pairs_read(count, bytes),
        pairs_read(count, bytes).2 <= bytes.len(),
    decreases count,
{
    if count > 0 {
        if let (Ok(pair), consumed) = pair_read(bytes) {
            let rest = bytes.skip(consumed as int);
            what_follows_a_property_does_not_matter(bytes, following);
            lemma_one_is_read(count, bytes, pair, consumed);
            lemma_one_is_read(count, bytes + following, pair, consumed);
            assert((bytes + following).skip(consumed as int) =~= rest + following);
            lemma_properties_before((count - 1) as nat, rest, following);
        }
    }
}

/// What follows a set of properties that can be read does not matter to it.
pub proof fn what_follows_a_set_does_not_matter(bytes: Seq<u8>, following: Seq<u8>)
    requires
        set_read(bytes).0 is Ok,
    ensures
        set_read(bytes + following) == set_read(bytes),
        set_read(bytes).2 <= bytes.len(),
{
    assert((bytes + following).take(4) =~= bytes.take(4));
    assert((bytes + following).skip(4) =~= bytes.skip(4) + following);
    lemma_properties_before(le_value(bytes.take(4)), bytes.skip(4), following);
}

/// A set of properties whose layout is cut off anywhere is not read.
pub proof fn cut_sets_are_not_read(entries: Seq<PropertyPair>, length: nat)
    requires
        set_fits(entries),
        length < set_bytes(entries).len(),
    ensures
        set_read(set_bytes(entries).take(length as int)).0 is Err,
{
    let whole = set_bytes(entries);
    let cut = whole.take(length as int);
    if set_read(cut).0 is Ok {
        what_follows_a_set_does_not_matter(cut, whole.skip(length as int));
        assert(cut + whole.skip(length as int) =~= whole);
        sets_read_back(entries, Seq::empty());
        assert(whole + Seq::<u8>::empty() =~= whole);
    }
}

} // verus!

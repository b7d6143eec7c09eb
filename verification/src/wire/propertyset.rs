//! Binary wire codec for property sets.
//!
//! Layout: a `u32` entry count, then for each entry, by ascending key, a length-prefixed UTF-8 key,
//! a 1-byte value tag (`0` = `Int`, `1` = `Str`), and the value (an `i64`, or a length-prefixed
//! UTF-8 string).

use ironrdp_core::{ReadCursor, WriteCursor};
use ironrdp_propertyset::PropertySet;
use vstd::prelude::*;

use crate::properties::{
    finite_properties_have_a_listing, has_key, in_key_order, insert_property, list_properties,
    listed_properties_are_finite, listing_is_in_key_order, lists, pairs, property_map, PropValue,
    PropertyMap, PropertyPair, PropertyValue,
};
use crate::wire::{
    advanced, clamped, ensure_unread, le_bytes, le_bytes_read_back, le_value, lemma_advanced,
    lemma_le_bytes_len, lemma_le_limits, lemma_wrote, lemma_wrote_nothing, read_buffer,
    read_position, read_string, room, signed_64, string_bytes, string_fits, string_length,
    string_read, string_size_is_what_is_written, string_written, strings_read_back, unread,
    unsigned_64, write_string, wrote, WireError,
};

verus! {

/// The tag of a numerical value.
const TAG_INT: u8 = 0;

/// The tag of a string value.
const TAG_STR: u8 = 1;

// ---------------------------------------------------------------------------
// Layout
// ---------------------------------------------------------------------------

/// Size on the wire of one value, its tag aside.
pub open spec fn value_length(value: PropertyValue) -> nat {
    match value {
        PropertyValue::Int(_) => 8,
        PropertyValue::Str(text) => string_length(text),
    }
}

/// Size on the wire of one property.
pub open spec fn pair_length(pair: PropertyPair) -> nat {
    string_length(pair.0) + 1 + value_length(pair.1)
}

/// Size on the wire of properties, their count aside.
pub open spec fn pairs_length(entries: Seq<PropertyPair>) -> nat
    decreases entries.len(),
{
    if entries.len() == 0 {
        0
    } else {
        pair_length(entries[0]) + pairs_length(entries.skip(1))
    }
}

/// Size on the wire of a set of properties.
pub open spec fn set_length(entries: Seq<PropertyPair>) -> nat {
    4 + pairs_length(entries)
}

/// One property on the wire: its key, the tag of its value, its value.
pub open spec fn pair_bytes(pair: PropertyPair) -> Seq<u8> {
    string_bytes(pair.0) + match pair.1 {
        PropertyValue::Int(value) => seq![0u8] + le_bytes(unsigned_64(value), 8),
        PropertyValue::Str(text) => seq![1u8] + string_bytes(text),
    }
}

/// Properties on the wire, one after the other.
pub open spec fn pairs_bytes(entries: Seq<PropertyPair>) -> Seq<u8>
    decreases entries.len(),
{
    if entries.len() == 0 {
        Seq::empty()
    } else {
        pair_bytes(entries[0]) + pairs_bytes(entries.skip(1))
    }
}

/// A set of properties on the wire: their count, then each of them.
pub open spec fn set_bytes(entries: Seq<PropertyPair>) -> Seq<u8> {
    le_bytes(entries.len(), 4) + pairs_bytes(entries)
}

/// The key and the value of a property fit their length prefixes.
pub open spec fn pair_fits(pair: PropertyPair) -> bool {
    &&& string_fits(pair.0)
    &&& pair.1 matches PropertyValue::Str(text) ==> string_fits(text)
}

/// Properties whose count and whose texts fit their prefixes.
pub open spec fn set_fits(entries: Seq<PropertyPair>) -> bool {
    &&& entries.len() <= u32::MAX
    &&& forall|i: int| 0 <= i < entries.len() ==> pair_fits(#[trigger] entries[i])
}

// ---------------------------------------------------------------------------
// Writing
// ---------------------------------------------------------------------------

/// What comes of writing one property where there is room for it, and the bytes that are written.
pub open spec fn pair_written(pair: PropertyPair) -> (Result<(), WireError>, Seq<u8>) {
    let too_long = Err::<(), WireError>(
        WireError::InvalidField { field: "string length", reason: "too many elements" },
    );
    if !string_fits(pair.0) {
        (too_long, Seq::empty())
    } else {
        match pair.1 {
            PropertyValue::Str(text) if !string_fits(text) => (
                too_long,
                string_bytes(pair.0) + seq![1u8],
            ),
            _ => (Ok(()), pair_bytes(pair)),
        }
    }
}

/// What comes of writing properties where there is room for them, and the bytes that are written.
pub open spec fn pairs_written(entries: Seq<PropertyPair>) -> (Result<(), WireError>, Seq<u8>)
    decreases entries.len(),
{
    if entries.len() == 0 {
        (Ok(()), Seq::empty())
    } else {
        match pair_written(entries[0]) {
            (Err(error), bytes) => (Err(error), bytes),
            (Ok(()), bytes) => {
                let (outcome, more) = pairs_written(entries.skip(1));
                (outcome, bytes + more)
            },
        }
    }
}

/// What comes of writing a set of properties where `space` bytes can be written, and the bytes that
/// are.
pub open spec fn set_written(space: nat, entries: Seq<PropertyPair>) -> (
    Result<(), WireError>,
    Seq<u8>,
) {
    if space < set_length(entries) {
        (
            Err(
                WireError::NotEnoughBytes {
                    received: space as usize,
                    expected: clamped(set_length(entries)),
                },
            ),
            Seq::empty(),
        )
    } else if entries.len() > u32::MAX {
        (
            Err(
                WireError::InvalidField { field: "property count", reason: "too many elements" },
            ),
            Seq::empty(),
        )
    } else {
        let (outcome, bytes) = pairs_written(entries);
        (outcome, le_bytes(entries.len(), 4) + bytes)
    }
}

pub(crate) proof fn lemma_pair_length(pair: PropertyPair)
    ensures
        pair_bytes(pair).len() == pair_length(pair),
        pair_written(pair).1.len() <= pair_length(pair),
{
    string_size_is_what_is_written(pair.0);
    match pair.1 {
        PropertyValue::Int(value) => {
            lemma_le_bytes_len(unsigned_64(value), 8);
        },
        PropertyValue::Str(text) => {
            string_size_is_what_is_written(text);
        },
    }
}

/// The size on the wire of `entries`, where a `usize` can hold it.
fn checked_size(entries: &Vec<(String, PropValue)>) -> (size: Option<usize>)
    ensures
        match size {
            Some(size) => size == set_length(pairs(entries@)),
            None => set_length(pairs(entries@)) > usize::MAX,
        },
{
    let mut size: usize = 4;
    let ghost all = pairs(entries@);
    let mut i: usize = 0;
    assert(all.skip(0) =~= all);
    while i < entries.len()
        invariant
            i <= entries.len(),
            all == pairs(entries@),
            set_length(all) == size + pairs_length(all.skip(i as int)),
        decreases entries.len() - i,
    {
        let ghost rest = all.skip(i as int);
        assert(rest[0] == (entries@[i as int].0@, entries@[i as int].1@));
        assert(rest.skip(1) =~= all.skip(i + 1));
        let key_bytes: usize = entries[i].0.as_str().as_bytes().len();
        let value_bytes: usize = match &entries[i].1 {
            PropValue::Int(_) => 8,
            PropValue::Str(value) => {
                let bytes: usize = value.as_str().as_bytes().len();
                match bytes.checked_add(4) {
                    Some(bytes) => bytes,
                    None => {
                        return None;
                    },
                }
            },
        };
        // The prefix of the key and the tag of the value.
        size = match size.checked_add(5) {
            Some(sum) => sum,
            None => {
                return None;
            },
        };
        size = match size.checked_add(key_bytes) {
            Some(sum) => sum,
            None => {
                return None;
            },
        };
        size = match size.checked_add(value_bytes) {
            Some(sum) => sum,
            None => {
                return None;
            },
        };
        i += 1;
    }
    Some(size)
}

/// Size on the wire of `properties`, where a `usize` can hold it.
pub(crate) fn checked_set_size(properties: &PropertySet) -> (size: Option<usize>)
    ensures
        ({
            let length = set_length(in_key_order(property_map(*properties)));
            match size {
                Some(size) => size == length,
                None => length > usize::MAX,
            }
        }),
        property_map(*properties).dom().finite(),
{
    let entries: Vec<(String, PropValue)> = list_properties(properties);
    proof {
        listing_is_in_key_order(property_map(*properties), pairs(entries@));
        listed_properties_are_finite(property_map(*properties), pairs(entries@));
    }
    checked_size(&entries)
}

/// Size on the wire of `properties`.
pub fn size(properties: &PropertySet) -> (size: usize)
    ensures
        size == clamped(set_length(in_key_order(property_map(*properties)))),
        property_map(*properties).dom().finite(),
{
    match checked_set_size(properties) {
        Some(size) => size,
        None => usize::MAX,
    }
}

/// Writes one property where there is room for it.
pub(crate) fn write_pair(dst: &mut WriteCursor<'_>, key: &String, value: &PropValue) -> (outcome:
    Result<(), WireError>)
    requires
        pair_length((key@, value@)) <= room(*old(dst)),
    ensures
        outcome == pair_written((key@, value@)).0,
        wrote(*old(dst), *final(dst), pair_written((key@, value@)).1),
{
    proof {
        string_size_is_what_is_written(key@);
    }
    let ghost first = *dst;
    match write_string(dst, key.as_str()) {
        Ok(()) => {},
        Err(error) => {
            return Err(error);
        },
    }
    let ghost second = *dst;
    match value {
        PropValue::Int(value) => {
            dst.write_u8(TAG_INT);
            let ghost third = *dst;
            dst.write_i64(*value);
            proof {
                lemma_wrote(second, third, *dst, seq![0u8], le_bytes(unsigned_64(*value), 8));
                lemma_wrote(
                    first,
                    second,
                    *dst,
                    string_bytes(key@),
                    seq![0u8] + le_bytes(unsigned_64(*value), 8),
                );
            }
            Ok(())
        },
        PropValue::Str(value) => {
            dst.write_u8(TAG_STR);
            let ghost third = *dst;
            let outcome = write_string(dst, value.as_str());
            proof {
                let bytes = string_written(room(third), value@).1;
                lemma_wrote(second, third, *dst, seq![1u8], bytes);
                lemma_wrote(first, second, *dst, string_bytes(key@), seq![1u8] + bytes);
                assert(seq![1u8] + Seq::<u8>::empty() =~= seq![1u8]);
            }
            outcome
        },
    }
}

/// Writes `properties`.
pub fn write(properties: &PropertySet, dst: &mut WriteCursor<'_>) -> (outcome: Result<
    (),
    WireError,
>)
    ensures
        ({
            let entries = in_key_order(property_map(*properties));
            &&& outcome == set_written(room(*old(dst)), entries).0
            &&& wrote(*old(dst), *final(dst), set_written(room(*old(dst)), entries).1)
            &&& set_fits(entries) && set_length(entries) <= usize::MAX ==> (outcome is Ok
                <==> clamped(set_length(entries)) <= room(*old(dst)))
        }),
        property_map(*properties).dom().finite(),
{
    let entries: Vec<(String, PropValue)> = list_properties(properties);
    let ghost all = pairs(entries@);
    proof {
        listing_is_in_key_order(property_map(*properties), all);
        listed_properties_are_finite(property_map(*properties), all);
        lemma_wrote_nothing(*dst);
        lemma_le_bytes_len(all.len(), 4);
        if set_fits(all) && set_length(all) <= usize::MAX {
            size_decides_what_is_written(room(*dst), all);
        }
    }
    let ghost first = *dst;
    let received: usize = dst.remaining().len();
    let expected: usize = match checked_size(&entries) {
        Some(size) => size,
        None => {
            return Err(WireError::NotEnoughBytes { received, expected: usize::MAX });
        },
    };
    if received < expected {
        return Err(WireError::NotEnoughBytes { received, expected });
    }
    if entries.len() > u32::MAX as usize {
        return Err(
            WireError::InvalidField { field: "property count", reason: "too many elements" },
        );
    }
    let count: u32 = entries.len() as u32;
    dst.write_u32(count);
    let ghost mut written = le_bytes(count as nat, 4);
    let mut i: usize = 0;
    assert(all.skip(0) =~= all);
    assert(written + pairs_written(all).1 =~= set_written(room(first), all).1);
    while i < entries.len()
        invariant
            i <= entries.len(),
            all == pairs(entries@),
            all == in_key_order(property_map(*properties)),
            property_map(*properties).dom().finite(),
            wrote(first, *dst, written),
            written.len() + pairs_length(all.skip(i as int)) <= room(first),
            set_written(room(first), all) == (
                pairs_written(all.skip(i as int)).0,
                written + pairs_written(all.skip(i as int)).1,
            ),
            first == *old(dst),
        decreases entries.len() - i,
    {
        let ghost rest = all.skip(i as int);
        let ghost pair = (entries@[i as int].0@, entries@[i as int].1@);
        let ghost bytes = pair_written(pair).1;
        let ghost before = *dst;
        assert(rest[0] == pair);
        assert(rest.skip(1) =~= all.skip(i + 1));
        proof {
            lemma_pair_length(pair);
        }
        let outcome = write_pair(dst, &entries[i].0, &entries[i].1);
        proof {
            lemma_wrote(first, before, *dst, written, bytes);
            if outcome is Ok {
                assert(written + pairs_written(rest).1 =~= written + bytes + pairs_written(
                    rest.skip(1),
                ).1);
            }
            written = written + bytes;
        }
        match outcome {
            Ok(()) => {},
            Err(error) => {
                return Err(error);
            },
        }
        i += 1;
    }
    assert(written + pairs_written(all.skip(i as int)).1 =~= written);
    Ok(())
}

// ---------------------------------------------------------------------------
// Reading
// ---------------------------------------------------------------------------

/// The property at the start of `bytes`, and how many bytes are consumed in reading it.
pub open spec fn pair_read(bytes: Seq<u8>) -> (Result<PropertyPair, WireError>, nat) {
    match string_read(bytes) {
        (Err(error), count) => (Err(error), count),
        (Ok(key), count) => {
            let rest = bytes.skip(count as int);
            if rest.len() < 1 {
                (Err(WireError::NotEnoughBytes { received: 0, expected: 1 }), count)
            } else if rest[0] == 0 {
                let value = rest.skip(1);
                if value.len() < 8 {
                    (
                        Err(
                            WireError::NotEnoughBytes {
                                received: value.len() as usize,
                                expected: 8,
                            },
                        ),
                        count + 1,
                    )
                } else {
                    (
                        Ok(
                            (
                                key,
                                PropertyValue::Int(signed_64(le_value(value.take(8))) as i64),
                            ),
                        ),
                        count + 9,
                    )
                }
            } else if rest[0] == 1 {
                match string_read(rest.skip(1)) {
                    (Err(error), more) => (Err(error), count + 1 + more),
                    (Ok(text), more) => (
                        Ok((key, PropertyValue::Str(text))),
                        count + 1 + more,
                    ),
                }
            } else {
                (
                    Err(
                        WireError::InvalidField {
                            field: "property value tag",
                            reason: "unknown tag",
                        },
                    ),
                    count + 1,
                )
            }
        },
    }
}

/// What comes of reading `count` properties from `bytes`, the properties that are read, and how
/// many bytes are consumed.
pub open spec fn pairs_read(count: nat, bytes: Seq<u8>) -> (
    Result<(), WireError>,
    Seq<PropertyPair>,
    nat,
)
    decreases count,
{
    if count == 0 {
        (Ok(()), Seq::empty(), 0)
    } else {
        match pair_read(bytes) {
            (Err(error), consumed) => (Err(error), Seq::empty(), consumed),
            (Ok(pair), consumed) => {
                let (outcome, more, rest) = pairs_read(
                    (count - 1) as nat,
                    bytes.skip(consumed as int),
                );
                (outcome, seq![pair] + more, consumed + rest)
            },
        }
    }
}

/// What comes of reading a set of properties from `bytes`, the properties that are read, and how
/// many bytes are consumed.
pub open spec fn set_read(bytes: Seq<u8>) -> (Result<(), WireError>, Seq<PropertyPair>, nat) {
    if bytes.len() < 4 {
        (
            Err(WireError::NotEnoughBytes { received: bytes.len() as usize, expected: 4 }),
            Seq::empty(),
            0,
        )
    } else {
        let (outcome, entries, consumed) = pairs_read(le_value(bytes.take(4)), bytes.skip(4));
        (outcome, entries, 4 + consumed)
    }
}

/// `map` with `entries` inserted in turn.
pub open spec fn layered(map: PropertyMap, entries: Seq<PropertyPair>) -> PropertyMap
    decreases entries.len(),
{
    if entries.len() == 0 {
        map
    } else {
        layered(map, entries.drop_last()).insert(entries.last().0, entries.last().1)
    }
}

/// The mathematical value of a property that was read.
pub open spec fn read_pair_view(outcome: Result<(String, PropValue), WireError>) -> Result<
    PropertyPair,
    WireError,
> {
    match outcome {
        Ok(pair) => Ok((pair.0@, pair.1@)),
        Err(error) => Err(error),
    }
}

pub(crate) proof fn lemma_string_read_within(bytes: Seq<u8>)
    ensures
        string_read(bytes).1 <= bytes.len(),
{
}

pub(crate) proof fn lemma_pair_read_within(bytes: Seq<u8>)
    ensures
        pair_read(bytes).1 <= bytes.len(),
{
    lemma_string_read_within(bytes);
    let rest = bytes.skip(string_read(bytes).1 as int);
    if rest.len() > 0 {
        lemma_string_read_within(rest.skip(1));
    }
}

/// Reads one property.
pub(crate) fn read_pair(src: &mut ReadCursor<'_>) -> (outcome: Result<
    (String, PropValue),
    WireError,
>)
    requires
        read_position(*old(src)) <= read_buffer(*old(src)).len(),
    ensures
        read_pair_view(outcome) == pair_read(unread(*old(src))).0,
        advanced(*old(src), *final(src), pair_read(unread(*old(src))).1),
{
    let ghost first = *src;
    proof {
        lemma_string_read_within(unread(first));
    }
    let key: String = match read_string(src) {
        Ok(key) => key,
        Err(error) => {
            return Err(error);
        },
    };
    let ghost second = *src;
    proof {
        lemma_advanced(first, second, string_read(unread(first)).1);
    }
    match ensure_unread(src, 1) {
        Ok(()) => {},
        Err(error) => {
            return Err(error);
        },
    }
    let tag: u8 = src.read_u8();
    proof {
        lemma_advanced(second, *src, 1);
    }
    if tag == TAG_INT {
        match ensure_unread(src, 8) {
            Ok(()) => {},
            Err(error) => {
                return Err(error);
            },
        }
        let value: i64 = src.read_i64();
        Ok((key, PropValue::Int(value)))
    } else if tag == TAG_STR {
        match read_string(src) {
            Ok(value) => Ok((key, PropValue::Str(value))),
            Err(error) => Err(error),
        }
    } else {
        Err(WireError::InvalidField { field: "property value tag", reason: "unknown tag" })
    }
}

/// Reads properties that [`write`] writes and inserts them into `properties`, over what it holds
/// under the same keys. Properties that were read before an error stay inserted.
pub fn read(properties: &mut PropertySet, src: &mut ReadCursor<'_>) -> (outcome: Result<
    (),
    WireError,
>)
    ensures
        ({
            let (expected, entries, consumed) = set_read(unread(*old(src)));
            &&& outcome == expected
            &&& property_map(*final(properties)) == layered(
                property_map(*old(properties)),
                entries,
            )
            &&& advanced(*old(src), *final(src), consumed)
        }),
{
    let ghost first = *src;
    match ensure_unread(src, 4) {
        Ok(()) => {},
        Err(error) => {
            return Err(error);
        },
    }
    let count: u32 = src.read_u32();
    proof {
        lemma_advanced(first, *src, 4);
    }
    let ghost base = property_map(*properties);
    let ghost expected = set_read(unread(first));
    let ghost mut entries = Seq::<PropertyPair>::empty();
    let ghost mut consumed: nat = 4;
    let mut left: u32 = count;
    assert(entries + expected.1 =~= expected.1);
    while left > 0
        invariant
            left <= count,
            base == property_map(*old(properties)),
            expected == set_read(unread(first)),
            first == *old(src),
            property_map(*properties) == layered(base, entries),
            advanced(first, *src, consumed),
            read_position(*src) <= read_buffer(*src).len(),
            ({
                let (outcome, more, rest) = pairs_read(left as nat, unread(*src));
                expected == (outcome, entries + more, consumed + rest)
            }),
        decreases left,
    {
        let ghost before = *src;
        let ghost (outcome, more, rest) = pairs_read(left as nat, unread(before));
        proof {
            lemma_pair_read_within(unread(before));
        }
        let (key, value) = match read_pair(src) {
            Ok(pair) => pair,
            Err(error) => {
                assert(entries + more =~= entries);
                return Err(error);
            },
        };
        let ghost pair = (key@, value@);
        proof {
            let count = pair_read(unread(before)).1;
            lemma_advanced(before, *src, count);
            assert(entries.push(pair).drop_last() =~= entries);
            assert(entries + more =~= entries.push(pair) + pairs_read(
                (left - 1) as nat,
                unread(*src),
            ).1);
            entries = entries.push(pair);
            consumed = consumed + count;
        }
        insert_property(properties, key, value);
        left -= 1;
    }
    assert(entries + Seq::<PropertyPair>::empty() =~= entries);
    Ok(())
}

// ---------------------------------------------------------------------------
// Laws
// ---------------------------------------------------------------------------

proof fn lemma_pairs_length(entries: Seq<PropertyPair>)
    ensures
        pairs_bytes(entries).len() == pairs_length(entries),
    decreases entries.len(),
{
    if entries.len() > 0 {
        lemma_pair_length(entries[0]);
        lemma_pairs_length(entries.skip(1));
    }
}

/// A set of properties takes as many bytes as its size says.
pub proof fn set_size_is_what_is_written(entries: Seq<PropertyPair>)
    ensures
        set_bytes(entries).len() == set_length(entries),
{
    lemma_le_bytes_len(entries.len(), 4);
    lemma_pairs_length(entries);
}

/// Properties that fit their prefixes are written whole wherever there is room for them.
pub proof fn fitting_sets_are_written(space: nat, entries: Seq<PropertyPair>)
    requires
        set_fits(entries),
        set_length(entries) <= space,
    ensures
        set_written(space, entries) == (Ok::<(), WireError>(()), set_bytes(entries)),
{
    lemma_fitting_pairs_are_written(entries);
}

/// The size decides: properties whose count and texts fit their prefixes are written exactly where
/// at least as many bytes are left as their size says, and then take exactly that many; where fewer
/// are left nothing is written. That is so of every set whose size a `usize` can hold, and of every
/// other in any buffer that is not as long as the greatest `usize`, which their size is given as.
pub proof fn size_decides_what_is_written(space: nat, entries: Seq<PropertyPair>)
    requires
        set_fits(entries),
        set_length(entries) <= usize::MAX || space < usize::MAX,
    ensures
        ({
            let size = clamped(set_length(entries));
            let (outcome, bytes) = set_written(space, entries);
            &&& outcome is Ok <==> size <= space
            &&& outcome is Ok ==> bytes == set_bytes(entries) && bytes.len() == size
            &&& outcome is Err ==> bytes.len() == 0 && outcome == Err::<(), WireError>(
                WireError::NotEnoughBytes { received: space as usize, expected: size },
            )
        }),
{
    set_size_is_what_is_written(entries);
    if set_length(entries) <= space {
        fitting_sets_are_written(space, entries);
    }
}

/// A set without properties takes the four bytes of its count.
pub proof fn empty_sets_take_four_bytes()
    ensures
        clamped(set_length(in_key_order(PropertyMap::empty()))) == 4,
{
    let none = Seq::<PropertyPair>::empty();
    assert(lists(PropertyMap::empty(), none));
    listing_is_in_key_order(PropertyMap::empty(), none);
}

proof fn lemma_fitting_pairs_are_written(entries: Seq<PropertyPair>)
    requires
        forall|i: int| 0 <= i < entries.len() ==> pair_fits(#[trigger] entries[i]),
    ensures
        pairs_written(entries) == (Ok::<(), WireError>(()), pairs_bytes(entries)),
    decreases entries.len(),
{
    if entries.len() > 0 {
        let rest = entries.skip(1);
        assert(pair_fits(entries[0]));
        assert forall|i: int| 0 <= i < rest.len() implies pair_fits(#[trigger] rest[i]) by {
            assert(rest[i] == entries[i + 1]);
        }
        lemma_fitting_pairs_are_written(rest);
    }
}

pub(crate) proof fn lemma_pair_reads_back(pair: PropertyPair, following: Seq<u8>)
    requires
        pair_fits(pair),
    ensures
        pair_read(pair_bytes(pair) + following) == (
            Ok::<PropertyPair, WireError>(pair),
            pair_bytes(pair).len(),
        ),
{
    let bytes = pair_bytes(pair) + following;
    let key = string_bytes(pair.0);
    match pair.1 {
        PropertyValue::Int(value) => {
            let number = le_bytes(unsigned_64(value), 8);
            lemma_le_limits();
            le_bytes_read_back(unsigned_64(value), 8);
            assert(bytes =~= key + (seq![0u8] + number + following));
            strings_read_back(pair.0, seq![0u8] + number + following);
            assert(bytes.skip(key.len() as int) =~= seq![0u8] + number + following);
            assert(bytes.skip(key.len() as int).skip(1).take(8) =~= number);
        },
        PropertyValue::Str(text) => {
            assert(bytes =~= key + (seq![1u8] + string_bytes(text) + following));
            strings_read_back(pair.0, seq![1u8] + string_bytes(text) + following);
            assert(bytes.skip(key.len() as int) =~= seq![1u8] + string_bytes(text) + following);
            assert(bytes.skip(key.len() as int).skip(1) =~= string_bytes(text) + following);
            strings_read_back(text, following);
        },
    }
}

pub(crate) proof fn lemma_one_is_read(count: nat, bytes: Seq<u8>, pair: PropertyPair, consumed: nat)
    requires
        count > 0,
        pair_read(bytes) == (Ok::<PropertyPair, WireError>(pair), consumed),
    ensures
        ({
            let more = pairs_read((count - 1) as nat, bytes.skip(consumed as int));
            pairs_read(count, bytes) == (more.0, seq![pair] + more.1, consumed + more.2)
        }),
{
}

pub(crate) proof fn lemma_one_more_is_read(count: nat, pair: PropertyPair, after: Seq<u8>)
    requires
        count > 0,
        pair_fits(pair),
    ensures
        ({
            let more = pairs_read((count - 1) as nat, after);
            pairs_read(count, pair_bytes(pair) + after) == (
                more.0,
                seq![pair] + more.1,
                pair_bytes(pair).len() + more.2,
            )
        }),
{
    let bytes = pair_bytes(pair) + after;
    let length = pair_bytes(pair).len();
    assert(bytes.skip(length as int) == after) by {
        assert(bytes.skip(length as int) =~= after);
    }
    assert(pair_read(bytes) == (Ok::<PropertyPair, WireError>(pair), length)) by {
        lemma_pair_reads_back(pair, after);
    }
    lemma_one_is_read(count, bytes, pair, length);
}

pub(crate) proof fn lemma_joined(entries: Seq<PropertyPair>, following: Seq<u8>)
    requires
        entries.len() > 0,
    ensures
        pairs_bytes(entries) + following == pair_bytes(entries[0]) + (pairs_bytes(entries.skip(1))
            + following),
        pairs_bytes(entries).len() == pair_bytes(entries[0]).len() + pairs_bytes(
            entries.skip(1),
        ).len(),
{
    let first = pair_bytes(entries[0]);
    let rest = pairs_bytes(entries.skip(1));
    assert((first + rest) + following =~= first + (rest + following));
}

proof fn lemma_pairs_read_back(entries: Seq<PropertyPair>, following: Seq<u8>)
    requires
        forall|i: int| 0 <= i < entries.len() ==> pair_fits(#[trigger] entries[i]),
    ensures
        pairs_read(entries.len(), pairs_bytes(entries) + following) == (
            Ok::<(), WireError>(()),
            entries,
            pairs_bytes(entries).len(),
        ),
    decreases entries.len(),
{
    if entries.len() == 0 {
        assert(entries =~= Seq::empty());
    } else {
        let rest = entries.skip(1);
        let pair = entries[0];
        assert(pair_fits(pair));
        assert forall|i: int| 0 <= i < rest.len() implies pair_fits(#[trigger] rest[i]) by {
            assert(rest[i] == entries[i + 1]);
        }
        lemma_pairs_read_back(rest, following);
        lemma_one_more_is_read(entries.len(), pair, pairs_bytes(rest) + following);
        lemma_joined(entries, following);
        assert(seq![pair] + rest =~= entries);
    }
}

/// The properties of a set read back as they were written, in the same order, whatever follows
/// them, and exactly their bytes are consumed.
pub proof fn sets_read_back(entries: Seq<PropertyPair>, following: Seq<u8>)
    requires
        set_fits(entries),
    ensures
        set_read(set_bytes(entries) + following) == (
            Ok::<(), WireError>(()),
            entries,
            set_bytes(entries).len(),
        ),
{
    let bytes = set_bytes(entries) + following;
    lemma_le_limits();
    le_bytes_read_back(entries.len(), 4);
    assert(bytes.take(4) =~= le_bytes(entries.len(), 4));
    assert(bytes.skip(4) =~= pairs_bytes(entries) + following);
    lemma_pairs_read_back(entries, following);
}

/// Inserting the listed properties of `map` in turn lays `map` over `base`: keys of `map` have the
/// values they have in it, other keys keep theirs.
pub proof fn layering_a_listing_overrides(
    base: PropertyMap,
    map: PropertyMap,
    entries: Seq<PropertyPair>,
)
    requires
        lists(map, entries),
    ensures
        layered(base, entries) == base.union_prefer_right(map),
{
    let whole = layered(base, entries);
    assert(entries.take(entries.len() as int) =~= entries);
    assert forall|key: Seq<char>|
        #![trigger whole.contains_key(key)]
        #![trigger whole[key]]
        (whole.contains_key(key) <==> base.union_prefer_right(map).contains_key(key)) && (
        whole.contains_key(key) ==> whole[key] == base.union_prefer_right(map)[key]) by {
        lemma_layered_key(base, map, entries, entries.len(), key);
        if has_key(entries, key) {
            let i = choose|i: int| 0 <= i < entries.len() && (#[trigger] entries[i]).0 == key;
            assert(map.contains_key(entries[i].0));
        }
    }
    assert(whole =~= base.union_prefer_right(map));
}

proof fn lemma_layered_key(
    base: PropertyMap,
    map: PropertyMap,
    entries: Seq<PropertyPair>,
    count: nat,
    key: Seq<char>,
)
    requires
        lists(map, entries),
        count <= entries.len(),
    ensures
        ({
            let some = entries.take(count as int);
            &&& layered(base, some).contains_key(key) <==> base.contains_key(key) || has_key(
                some,
                key,
            )
            &&& has_key(some, key) ==> layered(base, some)[key] == map[key]
            &&& !has_key(some, key) ==> layered(base, some)[key] == base[key]
        }),
    decreases count,
{
    let some = entries.take(count as int);
    if count > 0 {
        let fewer = entries.take(count - 1);
        let last = entries[count - 1];
        lemma_layered_key(base, map, entries, (count - 1) as nat, key);
        assert(some.drop_last() =~= fewer);
        assert(some.last() == last);
        assert(map[last.0] == last.1);
        if has_key(fewer, key) {
            let i = choose|i: int| 0 <= i < fewer.len() && (#[trigger] fewer[i]).0 == key;
            assert(some[i] == fewer[i]);
        }
        if key == last.0 {
            assert(some[count - 1] == last);
        }
        if has_key(some, key) && key != last.0 {
            let i = choose|i: int| 0 <= i < some.len() && (#[trigger] some[i]).0 == key;
            assert(some[i] == fewer[i]);
        }
    }
}

/// Writing a set and reading it back into another gives the other set with the written one laid
/// over it; into an empty set, it gives the written set.
pub proof fn written_sets_read_back(map: PropertyMap, base: PropertyMap, following: Seq<u8>)
    requires
        map.dom().finite(),
        set_fits(in_key_order(map)),
    ensures
        ({
            let bytes = set_bytes(in_key_order(map));
            let (outcome, entries, consumed) = set_read(bytes + following);
            &&& outcome == Ok::<(), WireError>(())
            &&& layered(base, entries) == base.union_prefer_right(map)
            &&& layered(PropertyMap::empty(), entries) == map
            &&& consumed == bytes.len()
        }),
{
    let entries = in_key_order(map);
    finite_properties_have_a_listing(map);
    sets_read_back(entries, following);
    layering_a_listing_overrides(base, map, entries);
    layering_a_listing_overrides(PropertyMap::empty(), map, entries);
    assert(PropertyMap::empty().union_prefer_right(map) =~= map);
}

} // verus!

//! What the buffer retains, hands out and scrubs, said of lines and properties alone.

use vstd::prelude::*;

use super::{
    event_line, matching, most_recent, scrubbed, secret_text, secrets_in, with_secrets, LogVisitor,
};
use crate::ipc::REDACTED;
use crate::properties::{
    in_key_order, is_secret, PropertyMap, PropertyPair, PropertyValue,
};
use crate::text::laws::{aligned_texts_end_in_the_text, the_leftmost_occurrence_is_replaced};
use crate::text::{contains_text, occurs_at, signed_decimal};
use crate::wire::opt_text;

verus! {

// ---------------------------------------------------------------------------
// Retaining and handing out
// ---------------------------------------------------------------------------

/// The most recent lines are the end of the lines: as many as were asked for, or all that there
/// are.
pub proof fn the_most_recent_are_the_last(lines: Seq<Seq<char>>, count: nat)
    ensures
        most_recent(lines, count).len() == if lines.len() < count {
            lines.len()
        } else {
            count
        },
        forall|i: int|
            0 <= i < most_recent(lines, count).len() ==> #[trigger] most_recent(lines, count)[i]
                == lines[lines.len() - most_recent(lines, count).len() + i],
{
}

/// A line that is retained stands last, the lines before it keep their order, and the oldest is
/// forgotten exactly where there were as many as are retained.
pub proof fn the_newest_line_stands_last(lines: Seq<Seq<char>>, line: Seq<char>, capacity: nat)
    requires
        1 <= capacity,
        lines.len() <= capacity,
    ensures
        most_recent(lines.push(line), capacity).last() == line,
        lines.len() < capacity ==> most_recent(lines.push(line), capacity) == lines.push(line),
        lines.len() == capacity ==> most_recent(lines.push(line), capacity) == lines.skip(1).push(
            line,
        ),
{
    if lines.len() == capacity {
        assert(lines.push(line).skip(1) =~= lines.skip(1).push(line));
    }
}

/// How many of `lines` contain `needle`.
pub open spec fn count_containing(lines: Seq<Seq<char>>, needle: Seq<char>) -> nat
    decreases lines.len(),
{
    if lines.len() == 0 {
        0
    } else if contains_text(lines[0], needle) {
        1 + count_containing(lines.skip(1), needle)
    } else {
        count_containing(lines.skip(1), needle)
    }
}

/// The lines that match are looked for one by one: those of two runs of lines are those of the
/// first and then those of the second, and of a single line it is that line if it contains the
/// text. All match where no text is asked for.
pub proof fn lines_match_one_by_one(
    first: Seq<Seq<char>>,
    second: Seq<Seq<char>>,
    line: Seq<char>,
    needle: Seq<char>,
)
    ensures
        matching(first, None) == first,
        matching(Seq::empty(), Some(needle)) == Seq::<Seq<char>>::empty(),
        matching(first + second, Some(needle)) == matching(first, Some(needle)) + matching(
            second,
            Some(needle),
        ),
        matching(seq![line], Some(needle)) == if contains_text(line, needle) {
            seq![line]
        } else {
            Seq::empty()
        },
{
    let kept = |line: Seq<char>| contains_text(line, needle);
    Seq::filter_distributes_over_add(first, second, kept);
    reveal_with_fuel(Seq::filter, 3);
    assert(seq![line].drop_last() =~= Seq::empty());
    assert(matching(seq![line], Some(needle)) =~= if contains_text(line, needle) {
        seq![line]
    } else {
        Seq::empty()
    });
}

/// Every line that matches contains the text and is one of the lines, and as many match as contain
/// it.
pub proof fn matching_lines_contain_the_text(lines: Seq<Seq<char>>, needle: Seq<char>)
    ensures
        matching(lines, Some(needle)).len() == count_containing(lines, needle),
        forall|i: int|
            0 <= i < matching(lines, Some(needle)).len() ==> {
                &&& contains_text(#[trigger] matching(lines, Some(needle))[i], needle)
                &&& lines.contains(matching(lines, Some(needle))[i])
            },
    decreases lines.len(),
{
    let found = matching(lines, Some(needle));
    if lines.len() == 0 {
        assert(lines =~= Seq::empty());
        lines_match_one_by_one(lines, lines, Seq::empty(), needle);
    } else {
        let rest = lines.skip(1);
        let others = matching(rest, Some(needle));
        assert(lines =~= seq![lines[0]] + rest);
        lines_match_one_by_one(seq![lines[0]], rest, lines[0], needle);
        matching_lines_contain_the_text(rest, needle);
        assert forall|i: int| 0 <= i < found.len() implies contains_text(
            #[trigger] found[i],
            needle,
        ) && lines.contains(found[i]) by {
            if contains_text(lines[0], needle) {
                if i == 0 {
                    assert(found[0] == lines[0]);
                } else {
                    assert(found[i] == others[i - 1]);
                    let at = choose|at: int| 0 <= at < rest.len() && rest[at] == others[i - 1];
                    assert(lines[at + 1] == found[i]);
                }
            } else {
                assert(found[i] == others[i]);
                let at = choose|at: int| 0 <= at < rest.len() && rest[at] == others[i];
                assert(lines[at + 1] == found[i]);
            }
        }
    }
}

// ---------------------------------------------------------------------------
// Scrubbing
// ---------------------------------------------------------------------------

/// A line is scrubbed of secrets in turn, of none not at all, and by nothing but the marker: what
/// stands before the leftmost occurrence of a secret stays, the secret becomes [`REDACTED`], and
/// what stands behind it is scrubbed alike.
pub proof fn scrubbing_puts_the_marker_for_the_secret(
    before: Seq<char>,
    secret: Seq<char>,
    after: Seq<char>,
)
    requires
        secret.len() > 0,
        forall|at: int| 0 <= at < before.len() ==> !occurs_at(before + secret + after, secret, at),
    ensures
        scrubbed(before + secret + after, seq![secret]) == before + "<redacted>"@ + scrubbed(
            after,
            seq![secret],
        ),
{
    reveal_with_fuel(scrubbed, 3);
    assert(seq![secret].drop_last() =~= Seq::empty());
    the_leftmost_occurrence_is_replaced(before, secret, after, REDACTED@);
}

/// Scrubbing of secrets is scrubbing of the first of them and then of the others; of none, and of
/// an empty one, it changes nothing.
pub proof fn lines_are_scrubbed_in_turn(
    line: Seq<char>,
    first: Seq<Seq<char>>,
    second: Seq<Seq<char>>,
)
    ensures
        scrubbed(line, Seq::empty()) == line,
        scrubbed(line, seq![Seq::empty()]) == line,
        scrubbed(line, first + second) == scrubbed(scrubbed(line, first), second),
    decreases second.len(),
{
    reveal_with_fuel(scrubbed, 2);
    assert(seq![Seq::<char>::empty()].drop_last() =~= Seq::empty());
    if second.len() == 0 {
        assert(first + second =~= first);
    } else {
        assert((first + second).drop_last() =~= first + second.drop_last());
        lines_are_scrubbed_in_turn(line, first, second.drop_last());
    }
}

/// What a property's secret is: under a key that names one, its text unless that is empty, or its
/// number as it is written; under any other key there is none.
pub proof fn secrets_stand_under_secret_keys(key: Seq<char>, text: Seq<char>, number: i64)
    ensures
        !is_secret(key) ==> secret_text((key, PropertyValue::Str(text))) is None && secret_text(
            (key, PropertyValue::Int(number)),
        ) is None,
        is_secret(key) && text.len() > 0 ==> secret_text((key, PropertyValue::Str(text))) == Some(
            text,
        ),
        secret_text((key, PropertyValue::Str(Seq::empty()))) is None,
        is_secret(key) ==> secret_text((key, PropertyValue::Int(number))) == Some(
            signed_decimal(number as int),
        ),
{
}

/// Secrets are registered in turn: those of two runs of properties are those of the first and then
/// those of the second, and that of a single property is put behind those that are known unless it
/// is one of them.
pub proof fn secrets_are_registered_in_turn(
    known: Seq<Seq<char>>,
    first: Seq<PropertyPair>,
    second: Seq<PropertyPair>,
    pair: PropertyPair,
)
    ensures
        with_secrets(known, Seq::empty()) == known,
        with_secrets(known, first + second) == with_secrets(with_secrets(known, first), second),
        with_secrets(known, seq![pair]) == match secret_text(pair) {
            None => known,
            Some(secret) => if known.contains(secret) {
                known
            } else {
                known.push(secret)
            },
        },
    decreases second.len(),
{
    reveal_with_fuel(with_secrets, 2);
    assert(seq![pair].drop_last() =~= Seq::empty());
    if second.len() == 0 {
        assert(first + second =~= first);
    } else {
        assert((first + second).drop_last() =~= first + second.drop_last());
        secrets_are_registered_in_turn(known, first, second.drop_last(), pair);
    }
}

/// The secrets of properties are those that are registered, in the order of the keys, where none is
/// known yet.
pub proof fn secrets_of_properties_are_in_key_order(properties: PropertyMap)
    ensures
        secrets_in(properties) == with_secrets(Seq::empty(), in_key_order(properties)),
{
}

/// Nothing but secrets is registered: what was not known before is the secret of a property.
pub proof fn only_secrets_are_registered(known: Seq<Seq<char>>, entries: Seq<PropertyPair>)
    ensures
        known.len() <= with_secrets(known, entries).len() <= known.len() + entries.len(),
        forall|i: int|
            known.len() <= i < with_secrets(known, entries).len() ==> is_secret_of(
                entries,
                #[trigger] with_secrets(known, entries)[i],
            ),
    decreases entries.len(),
{
    if entries.len() > 0 {
        let fewer = entries.drop_last();
        let before = with_secrets(known, fewer);
        let after = with_secrets(known, entries);
        only_secrets_are_registered(known, fewer);
        assert forall|i: int| known.len() <= i < after.len() implies is_secret_of(
            entries,
            #[trigger] after[i],
        ) by {
            if i < before.len() {
                assert(after[i] == before[i]);
                let at = choose|at: int|
                    0 <= at < fewer.len() && secret_text(#[trigger] fewer[at]) == Some(before[i]);
                assert(secret_text(entries[at]) == Some(after[i]));
            } else {
                assert(secret_text(entries[entries.len() - 1]) == Some(after[i]));
            }
        }
    }
}

/// `secret` is the secret of one of `entries`.
pub open spec fn is_secret_of(entries: Seq<PropertyPair>, secret: Seq<char>) -> bool {
    exists|at: int| 0 <= at < entries.len() && secret_text(#[trigger] entries[at]) == Some(secret)
}

// ---------------------------------------------------------------------------
// Events
// ---------------------------------------------------------------------------

/// The line of an event is its level, behind blanks that take it to five characters, and then a
/// blank and where it comes from, a blank and its message if it has one, and its other fields.
pub proof fn event_lines_hold_every_part(
    level: Seq<char>,
    target: Seq<char>,
    message: Seq<char>,
    fields: Seq<char>,
)
    ensures
        ({
            let head = if level.len() < 5 {
                5 - level.len()
            } else {
                0
            };
            let plain = event_line(level, target, None, fields);
            let told = event_line(level, target, Some(message), fields);
            &&& plain.skip(head) == level + seq![' '] + target + fields
            &&& told.skip(head) == level + seq![' '] + target + seq![' '] + message + fields
            &&& forall|i: int| 0 <= i < head ==> #[trigger] plain[i] == ' '
            &&& forall|i: int| 0 <= i < head ==> #[trigger] told[i] == ' '
        }),
{
    aligned_texts_end_in_the_text(level, 5);
    let head = if level.len() < 5 {
        5 - level.len()
    } else {
        0
    };
    let plain = event_line(level, target, None, fields);
    let told = event_line(level, target, Some(message), fields);
    assert(plain.skip(head) =~= level + seq![' '] + target + fields);
    assert(told.skip(head) =~= level + seq![' '] + target + seq![' '] + message + fields);
}

/// A field named `message` becomes the message and leaves the fields; any other is added to the
/// fields, with its name and value, and leaves the message.
pub proof fn fields_are_collected_by_name(
    before: LogVisitor,
    after: LogVisitor,
    name: Seq<char>,
    value: Seq<char>,
)
    requires
        before.recorded(after, name, value),
    ensures
        name == "message"@ ==> opt_text(after.message) == Some(value) && after.fields@
            == before.fields@,
        name != "message"@ ==> opt_text(after.message) == opt_text(before.message)
            && after.fields@ == before.fields@ + seq![' '] + name + seq!['='] + value,
{
}

} // verus!

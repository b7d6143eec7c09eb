//! A bounded buffer of log lines, and what fills it.
//!
//! Lines are retained for inspection rather than printed. The buffer scrubs any registered secret
//! value before it retains a line.

use std::collections::VecDeque;

use ironrdp_cfg::is_secret_key;
use ironrdp_propertyset::PropertySet;
use vstd::prelude::*;

use crate::ipc::{texts, REDACTED};
use crate::properties::{
    finite_properties_have_a_listing, has_key, in_key_order, is_secret, list_properties,
    listed_properties_are_finite, listing_is_in_key_order, pairs, property_map, PropValue,
    PropertyMap, PropertyPair, PropertyValue,
};
use crate::text::{
    agrees_when_shifted, clear_of, contains, contains_text, decimals_are_digits, occurs_at,
    replace, replace_all, replace_of_absent_is_identity, replaced_text_holds_only_old_occurrences,
    right_align, right_aligned, same_text, signed_decimal, to_decimal,
};
use crate::wire::opt_text;

pub mod laws;

verus! {

/// Default capacity, in lines.
pub const DEFAULT_CAPACITY: usize = 100;

// ---------------------------------------------------------------------------
// What is retained
// ---------------------------------------------------------------------------

/// `line` with every secret, in turn, replaced by [`REDACTED`].
pub open spec fn scrubbed(line: Seq<char>, secrets: Seq<Seq<char>>) -> Seq<char>
    decreases secrets.len(),
{
    if secrets.len() == 0 {
        line
    } else {
        replace_all(scrubbed(line, secrets.drop_last()), secrets.last(), REDACTED@)
    }
}

/// The last `count` of `lines`.
pub open spec fn most_recent(lines: Seq<Seq<char>>, count: nat) -> Seq<Seq<char>> {
    if lines.len() <= count {
        lines
    } else {
        lines.skip(lines.len() - count)
    }
}

/// Those of `lines` that contain `substring`, in their order; all of them if there is none.
pub open spec fn matching(lines: Seq<Seq<char>>, substring: Option<Seq<char>>) -> Seq<Seq<char>> {
    match substring {
        Some(needle) => lines.filter(|line: Seq<char>| contains_text(line, needle)),
        None => lines,
    }
}

/// The secret that `entry` holds, as it would be written: the text, if there is any, or the number
/// under a key that names a secret.
pub open spec fn secret_text(entry: PropertyPair) -> Option<Seq<char>> {
    if is_secret(entry.0) {
        match entry.1 {
            PropertyValue::Int(value) => Some(signed_decimal(value as int)),
            PropertyValue::Str(value) => if value.len() > 0 {
                Some(value)
            } else {
                None
            },
        }
    } else {
        None
    }
}

/// `known` with the secrets that `entries` hold and that were not known, in their order.
pub open spec fn with_secrets(known: Seq<Seq<char>>, entries: Seq<PropertyPair>) -> Seq<Seq<char>>
    decreases entries.len(),
{
    if entries.len() == 0 {
        known
    } else {
        let before = with_secrets(known, entries.drop_last());
        match secret_text(entries.last()) {
            Some(secret) => if before.contains(secret) {
                before
            } else {
                before.push(secret)
            },
            None => before,
        }
    }
}

/// The secrets that `properties` hold.
pub open spec fn secrets_in(properties: PropertyMap) -> Seq<Seq<char>> {
    with_secrets(Seq::empty(), in_key_order(properties))
}

/// None of `secrets` is empty.
pub open spec fn all_texts(secrets: Seq<Seq<char>>) -> bool {
    forall|i: int| 0 <= i < secrets.len() ==> (#[trigger] secrets[i]).len() > 0
}

/// Whether `secret` is among `secrets`.
fn is_known(secrets: &Vec<String>, secret: &String) -> (known: bool)
    ensures
        known == texts(secrets@).contains(secret@),
{
    for i in 0..secrets.len()
        invariant
            forall|j: int| 0 <= j < i ==> texts(secrets@)[j] != secret@,
    {
        assert(texts(secrets@)[i as int] == secrets@[i as int]@);
        if secrets[i] == *secret {
            return true;
        }
    }
    false
}

/// Adds to `secrets` those that `properties` hold and that are not among them yet.
pub fn add_secrets(secrets: &mut Vec<String>, properties: &PropertySet)
    ensures
        texts(final(secrets)@) == with_secrets(
            texts(old(secrets)@),
            in_key_order(property_map(*properties)),
        ),
        property_map(*properties).dom().finite(),
{
    let entries: Vec<(String, PropValue)> = list_properties(properties);
    let ghost all = pairs(entries@);
    let ghost known = texts(secrets@);
    proof {
        listing_is_in_key_order(property_map(*properties), all);
        listed_properties_are_finite(property_map(*properties), all);
    }
    assert(all.take(0) =~= Seq::empty());
    for i in 0..entries.len()
        invariant
            all == pairs(entries@),
            texts(secrets@) == with_secrets(known, all.take(i as int)),
    {
        let ghost taken = all.take(i + 1);
        let ghost before = texts(secrets@);
        assert(taken.drop_last() =~= all.take(i as int));
        assert(taken.last() == (entries@[i as int].0@, entries@[i as int].1@));
        if is_secret_key(entries[i].0.as_str()) {
            let secret: String = match &entries[i].1 {
                PropValue::Int(value) => to_decimal(*value),
                PropValue::Str(value) => value.clone(),
            };
            proof {
                if let PropertyValue::Int(value) = entries@[i as int].1@ {
                    lemma_decimal(value as int);
                }
            }
            if !secret.as_str().is_empty() && !is_known(secrets, &secret) {
                let ghost text = secret@;
                secrets.push(secret);
                assert(texts(secrets@) =~= before.push(text));
            }
        }
    }
    assert(all.take(all.len() as int) =~= all);
}

/// `line` with every one of `secrets`, in turn, replaced by [`REDACTED`].
pub fn scrub(line: &str, secrets: &Vec<String>) -> (clean: String)
    ensures
        clean@ == scrubbed(line@, texts(secrets@)),
{
    let mut clean: String = line.to_owned();
    let ghost all = texts(secrets@);
    assert(all.take(0) =~= Seq::empty());
    for i in 0..secrets.len()
        invariant
            all == texts(secrets@),
            clean@ == scrubbed(line@, all.take(i as int)),
    {
        assert(all.take(i + 1).drop_last() =~= all.take(i as int));
        assert(all[i as int] == secrets@[i as int]@);
        let secret: &str = secrets[i].as_str();
        if !secret.is_empty() && contains(clean.as_str(), secret) {
            clean = replace(clean.as_str(), secret, REDACTED);
        } else {
            proof {
                if secret@.len() > 0 {
                    replace_of_absent_is_identity(clean@, secret@, REDACTED@);
                }
            }
        }
    }
    assert(all.take(all.len() as int) =~= all);
    clean
}

proof fn lemma_decimal(number: int)
    ensures
        signed_decimal(number).len() > 0,
        forall|i: int|
            0 <= i < signed_decimal(number).len() ==> (#[trigger] signed_decimal(number)[i] == '-'
                || '0' <= signed_decimal(number)[i] <= '9'),
{
    if number < 0 {
        decimals_are_digits((-number) as nat);
    } else {
        decimals_are_digits(number as nat);
    }
}

/// A bounded buffer of formatted log lines, with secret-value scrubbing.
pub struct LogBuffer {
    capacity: usize,
    lines: VecDeque<String>,
    secrets: Vec<String>,
}

impl LogBuffer {
    /// How many lines are retained at most.
    pub closed spec fn capacity(self) -> nat {
        self.capacity as nat
    }

    /// The retained lines, oldest first.
    pub closed spec fn lines(self) -> Seq<Seq<char>> {
        texts(self.lines@)
    }

    /// The registered secrets.
    pub closed spec fn secrets(self) -> Seq<Seq<char>> {
        texts(self.secrets@)
    }

    /// At least one line can be retained, no more than the capacity are, and every registered
    /// secret is some text and is registered once.
    pub open spec fn well_formed(self) -> bool {
        &&& 1 <= self.capacity()
        &&& self.lines().len() <= self.capacity()
        &&& all_texts(self.secrets())
        &&& self.secrets().no_duplicates()
    }

    /// An empty buffer of the default capacity.
    pub fn new() -> (buffer: Self)
        ensures
            buffer.well_formed(),
            buffer.capacity() == DEFAULT_CAPACITY,
            buffer.capacity() == 100,
            buffer.lines() == Seq::<Seq<char>>::empty(),
            buffer.secrets() == Seq::<Seq<char>>::empty(),
    {
        LogBuffer::with_capacity(DEFAULT_CAPACITY)
    }

    /// An empty buffer that retains `capacity` lines, and one where `capacity` is zero.
    pub fn with_capacity(capacity: usize) -> (buffer: Self)
        ensures
            buffer.well_formed(),
            buffer.capacity() == if capacity == 0 {
                1
            } else {
                capacity as nat
            },
            buffer.lines() == Seq::<Seq<char>>::empty(),
            buffer.secrets() == Seq::<Seq<char>>::empty(),
    {
        let buffer = LogBuffer {
            capacity: if capacity == 0 {
                1
            } else {
                capacity
            },
            lines: VecDeque::new(),
            secrets: Vec::new(),
        };
        assert(buffer.lines() =~= Seq::empty());
        assert(buffer.secrets() =~= Seq::empty());
        buffer
    }

    /// Registers every secret value in `properties`, text or number, so that it is scrubbed from
    /// later lines.
    pub fn register_secrets(&mut self, properties: &PropertySet)
        requires
            old(self).well_formed(),
        ensures
            final(self).well_formed(),
            final(self).capacity() == old(self).capacity(),
            final(self).lines() == old(self).lines(),
            final(self).secrets() == with_secrets(
                old(self).secrets(),
                in_key_order(property_map(*properties)),
            ),
            property_map(*properties).dom().finite(),
    {
        proof {
            lemma_secrets_stay_usable(
                self.secrets(),
                in_key_order(property_map(*properties)),
            );
        }
        add_secrets(&mut self.secrets, properties);
    }

    /// Retains `line`, scrubbed of every registered secret; a full buffer forgets its oldest line.
    pub fn push(&mut self, line: String)
        requires
            old(self).well_formed(),
        ensures
            final(self).well_formed(),
            final(self).capacity() == old(self).capacity(),
            final(self).secrets() == old(self).secrets(),
            final(self).lines() == most_recent(
                old(self).lines().push(scrubbed(line@, old(self).secrets())),
                old(self).capacity(),
            ),
    {
        let clean: String = scrub(line.as_str(), &self.secrets);
        if self.capacity <= self.lines.len() {
            self.lines.pop_front();
        }
        self.lines.push_back(clean);
        assert(self.lines() =~= most_recent(
            old(self).lines().push(scrubbed(line@, old(self).secrets())),
            old(self).capacity(),
        ));
    }

    /// The retained lines, oldest first; with a `substring`, those that contain it.
    pub fn query(&self, substring: Option<&str>) -> (found: Vec<String>)
        ensures
            texts(found@) == matching(
                self.lines(),
                match substring {
                    Some(needle) => Some(needle@),
                    None => None,
                },
            ),
    {
        let mut found: Vec<String> = Vec::new();
        let ghost lines = self.lines();
        let ghost text = match substring {
            Some(needle) => Some(needle@),
            None => None,
        };
        assert(lines.take(0) =~= Seq::empty());
        assert(texts(found@) =~= matching(lines.take(0), text)) by {
            reveal(Seq::filter);
        }
        for i in 0..self.lines.len()
            invariant
                lines == self.lines(),
                text == match substring {
                    Some(needle) => Some(needle@),
                    None => None::<Seq<char>>,
                },
                texts(found@) == matching(lines.take(i as int), text),
        {
            let ghost before = found@;
            let line: &String = &self.lines[i];
            assert(lines[i as int] == line@);
            assert(lines.take(i + 1).drop_last() =~= lines.take(i as int));
            assert(lines.take(i + 1).last() == line@);
            proof {
                reveal(Seq::filter);
            }
            let shown: bool = match substring {
                Some(needle) => contains(line.as_str(), needle),
                None => true,
            };
            if shown {
                found.push(line.clone());
                assert(texts(found@) =~= texts(before).push(line@));
            }
            assert(texts(found@) =~= matching(lines.take(i + 1), text));
        }
        assert(lines.take(lines.len() as int) =~= lines);
        found
    }
}

// ---------------------------------------------------------------------------
// What fills the buffer
// ---------------------------------------------------------------------------

/// Collects an event's message and structured fields into texts.
pub struct LogVisitor {
    /// The message, if there was one.
    pub message: Option<String>,
    /// The other fields, each as ` name=value`.
    pub fields: String,
}

impl LogVisitor {
    /// Nothing collected yet.
    pub fn new() -> (visitor: Self)
        ensures
            visitor.message is None,
            visitor.fields@ == Seq::<char>::empty(),
    {
        LogVisitor { message: None, fields: String::new() }
    }

    /// `after` is `self` with the field `name`, whose value reads `value`.
    pub open spec fn recorded(self, after: Self, name: Seq<char>, value: Seq<char>) -> bool {
        if name == "message"@ {
            &&& opt_text(after.message) == Some(value)
            &&& after.fields@ == self.fields@
        } else {
            &&& opt_text(after.message) == opt_text(self.message)
            &&& after.fields@ == self.fields@ + seq![' '] + name + seq!['='] + value
        }
    }

    /// Collects a field by the text that `{:?}` renders its value to.
    pub fn record_debug(&mut self, name: &str, rendered: String)
        ensures
            old(self).recorded(*final(self), name@, rendered@),
    {
        if same_text(name, "message") {
            self.message = Some(rendered);
        } else {
            self.fields.push(' ');
            self.fields.append(name);
            self.fields.push('=');
            self.fields.append(rendered.as_str());
            assert(self.fields@ =~= old(self).fields@ + seq![' '] + name@ + seq!['=']
                + rendered@);
        }
    }

    /// Collects a field whose value is a text.
    pub fn record_str(&mut self, name: &str, value: &str)
        ensures
            old(self).recorded(*final(self), name@, value@),
    {
        self.record_debug(name, value.to_owned());
    }
}

/// One event as a line: its level, right-aligned to five characters, where it comes from, its
/// message if it has one, and its other fields.
pub open spec fn event_line(
    level: Seq<char>,
    target: Seq<char>,
    message: Option<Seq<char>>,
    fields: Seq<char>,
) -> Seq<char> {
    right_aligned(level, 5) + seq![' '] + target + match message {
        Some(message) => seq![' '] + message,
        None => Seq::empty(),
    } + fields
}

/// Formats each event into a single line and retains it in a [`LogBuffer`].
pub struct LogLayer {
    /// Where the lines go.
    pub buffer: LogBuffer,
}

impl LogLayer {
    /// A layer that fills `buffer`.
    pub fn new(buffer: LogBuffer) -> (layer: Self)
        ensures
            layer.buffer == buffer,
    {
        LogLayer { buffer }
    }

    /// Retains an event of this level, from this target, with what `visitor` has collected of it.
    pub fn on_event(&mut self, level: &str, target: &str, visitor: &LogVisitor)
        requires
            old(self).buffer.well_formed(),
        ensures
            final(self).buffer.well_formed(),
            final(self).buffer.capacity() == old(self).buffer.capacity(),
            final(self).buffer.secrets() == old(self).buffer.secrets(),
            final(self).buffer.lines() == most_recent(
                old(self).buffer.lines().push(
                    scrubbed(
                        event_line(
                            level@,
                            target@,
                            opt_text(visitor.message),
                            visitor.fields@,
                        ),
                        old(self).buffer.secrets(),
                    ),
                ),
                old(self).buffer.capacity(),
            ),
    {
        let mut line: String = right_align(level, 5);
        line.push(' ');
        line.append(target);
        match &visitor.message {
            Some(message) => {
                line.push(' ');
                line.append(message.as_str());
            },
            None => {},
        }
        line.append(visitor.fields.as_str());
        assert(line@ =~= event_line(
            level@,
            target@,
            opt_text(visitor.message),
            visitor.fields@,
        ));
        self.buffer.push(line);
    }
}

// ---------------------------------------------------------------------------
// Laws
// ---------------------------------------------------------------------------

/// A text without angle brackets that does not stand in [`REDACTED`] is clear of it.
pub proof fn plain_secrets_are_clear(secret: Seq<char>)
    requires
        !secret.contains('<'),
        !secret.contains('>'),
        !contains_text(REDACTED@, secret),
    ensures
        clear_of(secret, REDACTED@),
{
    reveal_strlit("<redacted>");
    let marker = REDACTED@;
    assert forall|shift: int| !agrees_when_shifted(secret, marker, shift) by {
        if agrees_when_shifted(secret, marker, shift) {
            if shift <= 0 {
                assert(secret[-shift] == marker[0]);
            } else if shift + secret.len() >= marker.len() {
                assert(secret[marker.len() - 1 - shift] == marker[marker.len() - 1]);
            } else {
                assert(marker.subrange(shift, shift + secret.len()) =~= secret);
                assert(occurs_at(marker, secret, shift));
            }
        }
    }
}

/// A number is clear of [`REDACTED`], as it is written.
pub proof fn numbers_are_clear(number: int)
    ensures
        clear_of(signed_decimal(number), REDACTED@),
{
    reveal_strlit("<redacted>");
    let text = signed_decimal(number);
    lemma_decimal(number);
    assert forall|at: int| !occurs_at(REDACTED@, text, at) by {
        if occurs_at(REDACTED@, text, at) {
            assert(REDACTED@.subrange(at, at + text.len())[0] == REDACTED@[at]);
            assert(text[0] == REDACTED@[at]);
        }
    }
    plain_secrets_are_clear(text);
}

/// A scrubbed line holds none of the secrets it was scrubbed of that are clear of [`REDACTED`].
pub proof fn scrubbed_lines_hold_no_secret(
    line: Seq<char>,
    secrets: Seq<Seq<char>>,
    secret: Seq<char>,
)
    requires
        all_texts(secrets),
        secrets.contains(secret),
        clear_of(secret, REDACTED@),
    ensures
        !contains_text(scrubbed(line, secrets), secret),
    decreases secrets.len(),
{
    reveal_strlit("<redacted>");
    let fewer = secrets.drop_last();
    let last = secrets.last();
    if contains_text(scrubbed(line, secrets), secret) {
        let at = choose|at: int| 0 <= at < secrets.len() && secrets[at] == secret;
        assert(secrets[at].len() > 0);
        replaced_text_holds_only_old_occurrences(
            scrubbed(line, fewer),
            last,
            REDACTED@,
            secret,
        );
        assert(fewer[at] == secret);
        scrubbed_lines_hold_no_secret(line, fewer, secret);
    }
}

/// A line that holds none of the secrets is left as it is.
pub proof fn clean_lines_stay(line: Seq<char>, secrets: Seq<Seq<char>>)
    requires
        forall|i: int| 0 <= i < secrets.len() ==> !contains_text(line, #[trigger] secrets[i]),
    ensures
        scrubbed(line, secrets) == line,
    decreases secrets.len(),
{
    if secrets.len() > 0 {
        let fewer = secrets.drop_last();
        assert forall|i: int| 0 <= i < fewer.len() implies !contains_text(
            line,
            #[trigger] fewer[i],
        ) by {
            assert(fewer[i] == secrets[i]);
        }
        clean_lines_stay(line, fewer);
        assert(secrets.last() == secrets[secrets.len() - 1]);
        if secrets.last().len() > 0 {
            replace_of_absent_is_identity(line, secrets.last(), REDACTED@);
        }
    }
}

/// Every secret that the properties hold, text or number, is registered, and every secret that was
/// stays.
pub proof fn every_secret_is_registered(known: Seq<Seq<char>>, entries: Seq<PropertyPair>)
    ensures
        known.is_prefix_of(with_secrets(known, entries)),
        forall|i: int|
            0 <= i < entries.len() && secret_text(#[trigger] entries[i]) is Some ==> with_secrets(
                known,
                entries,
            ).contains(secret_text(entries[i])->0),
    decreases entries.len(),
{
    if entries.len() > 0 {
        let fewer = entries.drop_last();
        let before = with_secrets(known, fewer);
        let after = with_secrets(known, entries);
        every_secret_is_registered(known, fewer);
        assert forall|secret: Seq<char>| before.contains(secret) implies after.contains(secret) by {
            let at = choose|at: int| 0 <= at < before.len() && before[at] == secret;
            assert(after[at] == secret);
        }
        assert forall|i: int|
            0 <= i < entries.len() && secret_text(
                #[trigger] entries[i],
            ) is Some implies after.contains(secret_text(entries[i])->0) by {
            let secret = secret_text(entries[i])->0;
            if i < fewer.len() {
                assert(fewer[i] == entries[i]);
            } else if !before.contains(secret) {
                assert(after.last() == secret);
            }
        }
    }
}

/// A secret among properties that were registered, text or number, does not stand verbatim in a
/// line that is retained afterwards, if it is clear of [`REDACTED`].
pub proof fn registered_secrets_are_never_retained(
    known: Seq<Seq<char>>,
    entries: Seq<PropertyPair>,
    at: int,
    line: Seq<char>,
)
    requires
        all_texts(known),
        0 <= at < entries.len(),
        secret_text(entries[at]) matches Some(secret) && clear_of(secret, REDACTED@),
    ensures
        !contains_text(
            scrubbed(line, with_secrets(known, entries)),
            secret_text(entries[at])->0,
        ),
{
    every_secret_is_registered(known, entries);
    lemma_secrets_stay_texts(known, entries);
    scrubbed_lines_hold_no_secret(
        line,
        with_secrets(known, entries),
        secret_text(entries[at])->0,
    );
}

/// A secret that properties hold, text or number, does not stand verbatim in a text that is
/// scrubbed of the secrets in them, if it is clear of [`REDACTED`].
pub proof fn scrubbed_texts_hold_no_secret(properties: PropertyMap, key: Seq<char>, text: Seq<char>)
    requires
        properties.dom().finite(),
        properties.contains_key(key),
        secret_text((key, properties[key])) matches Some(secret) && clear_of(secret, REDACTED@),
    ensures
        !contains_text(
            scrubbed(text, secrets_in(properties)),
            secret_text((key, properties[key]))->0,
        ),
{
    finite_properties_have_a_listing(properties);
    let all = in_key_order(properties);
    assert(has_key(all, key));
    let at = choose|at: int| 0 <= at < all.len() && (#[trigger] all[at]).0 == key;
    assert(all[at] == (key, properties[key]));
    registered_secrets_are_never_retained(Seq::empty(), all, at, text);
}

proof fn lemma_secrets_stay_texts(known: Seq<Seq<char>>, entries: Seq<PropertyPair>)
    requires
        all_texts(known),
    ensures
        all_texts(with_secrets(known, entries)),
    decreases entries.len(),
{
    if entries.len() > 0 {
        let before = with_secrets(known, entries.drop_last());
        let after = with_secrets(known, entries);
        lemma_secrets_stay_texts(known, entries.drop_last());
        assert forall|i: int| 0 <= i < after.len() implies (#[trigger] after[i]).len() > 0 by {
            if i < before.len() {
                assert(after[i] == before[i]);
            } else if let PropertyValue::Int(value) = entries.last().1 {
                lemma_decimal(value as int);
            }
        }
    }
}

proof fn lemma_secrets_stay_usable(known: Seq<Seq<char>>, entries: Seq<PropertyPair>)
    requires
        all_texts(known),
        known.no_duplicates(),
    ensures
        all_texts(with_secrets(known, entries)),
        with_secrets(known, entries).no_duplicates(),
    decreases entries.len(),
{
    lemma_secrets_stay_texts(known, entries);
    if entries.len() > 0 {
        lemma_secrets_stay_usable(known, entries.drop_last());
        let before = with_secrets(known, entries.drop_last());
        let after = with_secrets(known, entries);
        assert forall|i: int, j: int|
            0 <= i < after.len() && 0 <= j < after.len() && i != j implies after[i] != after[j] by {
            if after.len() > before.len() {
                assert(forall|k: int|
                    0 <= k < before.len() ==> before.contains(#[trigger] before[k]));
                if i < before.len() {
                    assert(after[i] == before[i]);
                }
                if j < before.len() {
                    assert(after[j] == before[j]);
                }
            }
        }
    }
}

/// Registering the same properties again registers nothing new.
pub proof fn registering_twice_is_registering_once(
    known: Seq<Seq<char>>,
    entries: Seq<PropertyPair>,
)
    ensures
        with_secrets(with_secrets(known, entries), entries) == with_secrets(known, entries),
{
    every_secret_is_registered(known, entries);
    lemma_nothing_new(with_secrets(known, entries), entries);
}

proof fn lemma_nothing_new(known: Seq<Seq<char>>, entries: Seq<PropertyPair>)
    requires
        forall|i: int|
            0 <= i < entries.len() && secret_text(#[trigger] entries[i]) is Some ==> known.contains(
                secret_text(entries[i])->0,
            ),
    ensures
        with_secrets(known, entries) == known,
    decreases entries.len(),
{
    if entries.len() > 0 {
        let fewer = entries.drop_last();
        assert forall|i: int|
            0 <= i < fewer.len() && secret_text(
                #[trigger] fewer[i],
            ) is Some implies known.contains(secret_text(fewer[i])->0) by {
            assert(fewer[i] == entries[i]);
        }
        lemma_nothing_new(known, fewer);
        assert(entries.last() == entries[entries.len() - 1]);
    }
}

} // verus!

//! Connection properties: an outside key-value store, what it holds, and which keys name secrets.

use ironrdp_propertyset::PropertySet;
use vstd::prelude::*;

use crate::text::ascii_lower;

pub mod laws;

verus! {

/// The value of one property.
#[derive(Debug, Clone, PartialEq, Eq)]
pub enum PropValue {
    /// Numerical value.
    Int(i64),
    /// String value.
    Str(String),
}

/// The mathematical value of one property.
pub enum PropertyValue {
    /// Numerical value.
    Int(i64),
    /// String value.
    Str(Seq<char>),
}

impl View for PropValue {
    type V = PropertyValue;

    open spec fn view(&self) -> PropertyValue {
        match *self {
            PropValue::Int(value) => PropertyValue::Int(value),
            PropValue::Str(value) => PropertyValue::Str(value@),
        }
    }
}

/// Properties by key.
pub type PropertyMap = Map<Seq<char>, PropertyValue>;

/// One property: its key and its value.
pub type PropertyPair = (Seq<char>, PropertyValue);

// ---------------------------------------------------------------------------
// The outside store
// ---------------------------------------------------------------------------

/// `ironrdp_propertyset::PropertySet`, a key-value store for configuration keys.
#[verifier::external_type_specification]
#[verifier::external_body]
pub struct ExPropertySet(PropertySet);

/// What a property set holds.
pub uninterp spec fn property_map(properties: PropertySet) -> PropertyMap;

/// `PropertySet::new` gives a set that holds nothing.
pub assume_specification[ PropertySet::new ]() -> (properties: PropertySet)
    ensures
        property_map(properties) == PropertyMap::empty(),
;

/// `PropertySet::insert`: `key` has `value` from then on, whatever it had before, and the other
/// keys keep what they had.
#[verifier::external_body]
pub(crate) fn insert_property(properties: &mut PropertySet, key: String, value: PropValue)
    ensures
        property_map(*final(properties)) == property_map(*old(properties)).insert(key@, value@),
{
    match value {
        PropValue::Int(value) => properties.insert(key, value),
        PropValue::Str(value) => properties.insert(key, value),
    };
}

/// `PropertySet::iter` hands out every property once, by ascending key: the set is a `BTreeMap`
/// whose keys are ordered as texts.
#[verifier::external_body]
pub(crate) fn list_properties(properties: &PropertySet) -> (entries: Vec<(String, PropValue)>)
    ensures
        lists(property_map(*properties), pairs(entries@)),
{
    properties
        .iter()
        .map(|(key, value)| {
            let value = match value {
                ironrdp_propertyset::Value::Int(value) => PropValue::Int(*value),
                ironrdp_propertyset::Value::Str(value) => PropValue::Str(value.clone()),
            };
            (key.clone().into_owned(), value)
        })
        .collect()
}

/// `ironrdp_cfg::is_secret_key` compares the key with three names of secrets, ASCII case aside.
pub assume_specification[ ironrdp_cfg::is_secret_key ](key: &str) -> (secret: bool)
    ensures
        secret == is_secret(key@),
;

/// `key` names a property whose value is a secret: a password or a token.
pub open spec fn is_secret(key: Seq<char>) -> bool {
    ||| ascii_lower(key) == "cleartextpassword"@
    ||| ascii_lower(key) == "gatewaypassword"@
    ||| ascii_lower(key) == "ironrdp_rdcleanpathtoken"@
}

// ---------------------------------------------------------------------------
// Listing in key order
// ---------------------------------------------------------------------------

/// `left` comes before `right` in the order of texts: by code point, first difference first.
pub open spec fn key_before(left: Seq<char>, right: Seq<char>) -> bool
    decreases left.len(),
{
    if right.len() == 0 {
        false
    } else if left.len() == 0 {
        true
    } else {
        left[0] < right[0] || (left[0] == right[0] && key_before(left.skip(1), right.skip(1)))
    }
}

/// The mathematical value of a list of properties.
pub open spec fn pairs(entries: Seq<(String, PropValue)>) -> Seq<PropertyPair> {
    entries.map_values(|entry: (String, PropValue)| (entry.0@, entry.1@))
}

/// `entries` are the properties in `map`, each once, by ascending key.
pub open spec fn lists(map: PropertyMap, entries: Seq<PropertyPair>) -> bool {
    &&& forall|i: int, j: int|
        #![trigger entries[i], entries[j]]
        0 <= i < j < entries.len() ==> key_before(entries[i].0, entries[j].0)
    &&& forall|i: int|
        #![trigger entries[i]]
        0 <= i < entries.len() ==> map.contains_key(entries[i].0) && map[entries[i].0]
            == entries[i].1
    &&& forall|key: Seq<char>|
        #[trigger]
        map.contains_key(key) ==> has_key(entries, key)
}

/// One of `entries` has the key `key`.
pub open spec fn has_key(entries: Seq<PropertyPair>, key: Seq<char>) -> bool {
    exists|i: int| 0 <= i < entries.len() && (#[trigger] entries[i]).0 == key
}

/// The properties in `map`, each once, by ascending key.
pub open spec fn in_key_order(map: PropertyMap) -> Seq<PropertyPair> {
    choose|entries: Seq<PropertyPair>| lists(map, entries)
}

proof fn lemma_key_order(a: Seq<char>, b: Seq<char>)
    ensures
        !key_before(a, a),
        key_before(a, b) ==> !key_before(b, a),
        a != b ==> key_before(a, b) || key_before(b, a),
    decreases a.len(),
{
    if a.len() == 0 {
        if b.len() == 0 {
            assert(a =~= b);
        }
    } else if b.len() == 0 {
        lemma_key_order(a.skip(1), a.skip(1));
    } else {
        lemma_key_order(a.skip(1), a.skip(1));
        lemma_key_order(a.skip(1), b.skip(1));
        if a != b && a[0] == b[0] {
            assert(a.skip(1) != b.skip(1)) by {
                if a.skip(1) == b.skip(1) {
                    assert(a =~= seq![a[0]] + a.skip(1));
                    assert(b =~= seq![b[0]] + b.skip(1));
                }
            }
        }
    }
}

proof fn lemma_key_order_transitive(a: Seq<char>, b: Seq<char>, c: Seq<char>)
    requires
        key_before(a, b),
        key_before(b, c),
    ensures
        key_before(a, c),
    decreases a.len(),
{
    if a.len() > 0 && a[0] == b[0] && b[0] == c[0] {
        lemma_key_order_transitive(a.skip(1), b.skip(1), c.skip(1));
    }
}

proof fn lemma_rest_of_listing(map: PropertyMap, entries: Seq<PropertyPair>)
    requires
        lists(map, entries),
        entries.len() > 0,
    ensures
        lists(map.remove(entries[0].0), entries.skip(1)),
{
    let key = entries[0].0;
    let rest = entries.skip(1);
    assert forall|i: int, j: int|
        #![trigger rest[i], rest[j]]
        0 <= i < j < rest.len() implies key_before(rest[i].0, rest[j].0) by {
        assert(rest[i] == entries[i + 1] && rest[j] == entries[j + 1]);
    }
    assert forall|i: int| #![trigger rest[i]] 0 <= i < rest.len() implies map.remove(
        key,
    ).contains_key(rest[i].0) && map.remove(key)[rest[i].0] == rest[i].1 by {
        assert(rest[i] == entries[i + 1]);
        assert(key_before(entries[0].0, entries[i + 1].0));
        lemma_key_order(key, rest[i].0);
    }
    assert forall|other: Seq<char>| #[trigger]
        map.remove(key).contains_key(other) implies has_key(rest, other) by {
        assert(map.contains_key(other));
        assert(has_key(entries, other));
        let i = choose|i: int| 0 <= i < entries.len() && (#[trigger] entries[i]).0 == other;
        assert(rest[i - 1] == entries[i]);
    }
}

/// Two listings of the same properties are the same.
pub proof fn listing_is_unique(
    map: PropertyMap,
    left: Seq<PropertyPair>,
    right: Seq<PropertyPair>,
)
    requires
        lists(map, left),
        lists(map, right),
    ensures
        left == right,
    decreases left.len(),
{
    if left.len() == 0 {
        if right.len() > 0 {
            assert(map.contains_key(right[0].0));
            assert(has_key(left, right[0].0));
        }
        assert(left =~= right);
    } else {
        assert(map.contains_key(left[0].0));
        assert(has_key(right, left[0].0));
        let j = choose|j: int| 0 <= j < right.len() && (#[trigger] right[j]).0 == left[0].0;
        assert(map.contains_key(right[0].0));
        assert(has_key(left, right[0].0));
        let i = choose|i: int| 0 <= i < left.len() && (#[trigger] left[i]).0 == right[0].0;
        if j > 0 {
            assert(key_before(right[0].0, right[j].0));
            lemma_key_order(left[0].0, right[0].0);
            if i > 0 {
                assert(key_before(left[0].0, left[i].0));
            }
        }
        assert(left[0].0 == right[0].0) by {
            if j > 0 {
                lemma_key_order(left[0].0, left[0].0);
            }
        }
        assert(left[0] == right[0]);
        lemma_rest_of_listing(map, left);
        lemma_rest_of_listing(map, right);
        listing_is_unique(map.remove(left[0].0), left.skip(1), right.skip(1));
        assert(left =~= seq![left[0]] + left.skip(1));
        assert(right =~= seq![right[0]] + right.skip(1));
    }
}

/// A listing of the properties in `map` is the listing.
pub proof fn listing_is_in_key_order(map: PropertyMap, entries: Seq<PropertyPair>)
    requires
        lists(map, entries),
    ensures
        in_key_order(map) == entries,
{
    listing_is_unique(map, in_key_order(map), entries);
}

proof fn lemma_listing_with_one_more(
    map: PropertyMap,
    entries: Seq<PropertyPair>,
    key: Seq<char>,
    value: PropertyValue,
) -> (more: Seq<PropertyPair>)
    requires
        lists(map, entries),
        !map.contains_key(key),
    ensures
        lists(map.insert(key, value), more),
    decreases entries.len(),
{
    let grown = map.insert(key, value);
    if entries.len() == 0 || key_before(key, entries[0].0) {
        let more = seq![(key, value)] + entries;
        assert forall|i: int, j: int|
            #![trigger more[i], more[j]]
            0 <= i < j < more.len() implies key_before(more[i].0, more[j].0) by {
            assert(more[j] == entries[j - 1]);
            if i == 0 {
                if j > 1 {
                    assert(key_before(entries[0].0, entries[j - 1].0));
                    lemma_key_order_transitive(key, entries[0].0, entries[j - 1].0);
                }
            } else {
                assert(more[i] == entries[i - 1]);
            }
        }
        assert forall|i: int| #![trigger more[i]] 0 <= i < more.len() implies grown.contains_key(
            more[i].0,
        ) && grown[more[i].0] == more[i].1 by {
            if i > 0 {
                assert(more[i] == entries[i - 1]);
            }
        }
        assert forall|other: Seq<char>| #[trigger]
            grown.contains_key(other) implies has_key(more, other) by {
            if other == key {
                assert(more[0].0 == other);
            } else {
                assert(map.contains_key(other));
                assert(has_key(entries, other));
                let i = choose|i: int| 0 <= i < entries.len() && (#[trigger] entries[i]).0 == other;
                assert(more[i + 1] == entries[i]);
            }
        }
        more
    } else {
        let first = entries[0];
        assert(map.contains_key(first.0));
        lemma_key_order(key, first.0);
        lemma_rest_of_listing(map, entries);
        let rest = lemma_listing_with_one_more(
            map.remove(first.0),
            entries.skip(1),
            key,
            value,
        );
        let more = seq![first] + rest;
        assert(grown.remove(first.0) =~= map.remove(first.0).insert(key, value));
        assert forall|i: int, j: int|
            #![trigger more[i], more[j]]
            0 <= i < j < more.len() implies key_before(more[i].0, more[j].0) by {
            assert(more[j] == rest[j - 1]);
            if i == 0 {
                let other = rest[j - 1].0;
                assert(grown.remove(first.0).contains_key(other));
                if other != key {
                    assert(map.contains_key(other));
                    assert(has_key(entries, other));
                    let n = choose|n: int|
                        0 <= n < entries.len() && (#[trigger] entries[n]).0 == other;
                    assert(key_before(entries[0].0, entries[n].0));
                }
            } else {
                assert(more[i] == rest[i - 1]);
            }
        }
        assert forall|i: int| #![trigger more[i]] 0 <= i < more.len() implies grown.contains_key(
            more[i].0,
        ) && grown[more[i].0] == more[i].1 by {
            if i > 0 {
                assert(more[i] == rest[i - 1]);
                assert(grown.remove(first.0).contains_key(rest[i - 1].0));
            }
        }
        assert forall|other: Seq<char>| #[trigger]
            grown.contains_key(other) implies has_key(more, other) by {
            if other == first.0 {
                assert(more[0].0 == other);
            } else {
                assert(grown.remove(first.0).contains_key(other));
                assert(has_key(rest, other));
                let i = choose|i: int| 0 <= i < rest.len() && (#[trigger] rest[i]).0 == other;
                assert(more[i + 1] == rest[i]);
            }
        }
        more
    }
}

/// Properties that can be listed are finitely many.
pub proof fn listed_properties_are_finite(map: PropertyMap, entries: Seq<PropertyPair>)
    requires
        lists(map, entries),
    ensures
        map.dom().finite(),
{
    let keys = entries.map_values(|pair: PropertyPair| pair.0);
    vstd::seq_lib::seq_to_set_is_finite(keys);
    assert forall|key: Seq<char>| map.dom().contains(key) implies keys.to_set().contains(key) by {
        assert(map.contains_key(key));
        assert(has_key(entries, key));
        let i = choose|i: int| 0 <= i < entries.len() && (#[trigger] entries[i]).0 == key;
        assert(keys[i] == key);
    }
    assert(map.dom().subset_of(keys.to_set()));
    vstd::set_lib::lemma_set_subset_finite(keys.to_set(), map.dom());
}

/// Finitely many properties can be listed in key order.
pub proof fn finite_properties_have_a_listing(map: PropertyMap)
    requires
        map.dom().finite(),
    ensures
        lists(map, in_key_order(map)),
    decreases map.dom().len(),
{
    if map.dom().len() == 0 {
        assert(map.dom() =~= Set::empty());
        assert(lists(map, Seq::<PropertyPair>::empty()));
    } else {
        let key = map.dom().choose();
        let fewer = map.remove(key);
        assert(map.contains_key(key));
        assert(fewer.dom() =~= map.dom().remove(key));
        finite_properties_have_a_listing(fewer);
        let more = lemma_listing_with_one_more(fewer, in_key_order(fewer), key, map[key]);
        assert(fewer.insert(key, map[key]) =~= map);
        assert(lists(map, more));
    }
}

} // verus!

//! What holds of the attribute lookup on every group.

use vstd::prelude::*;
use crate::tag::{first_named, first_value, has_element, has_key, lacks, lookup, TagView};

verus! {

/// An element gives a value for a key exactly where it has an attribute
/// with that key, and the value is that of the first such attribute; the
/// result is its place where there is one.
pub proof fn lemma_first_value_is_the_first(
    attributes: Seq<(Seq<char>, Seq<char>)>,
    key: Seq<char>,
) -> (at: int)
    ensures
        first_value(attributes, key) is Some <==> has_key(attributes, key),
        first_value(attributes, key) matches Some(value) ==> 0 <= at < attributes.len()
            && attributes[at] == (key, value) && forall|j: int|
            0 <= j < at ==> (#[trigger] attributes[j]).0 != key,
    decreases attributes.len(),
{
    if attributes.len() == 0 {
        0
    } else if attributes[0].0 == key {
        0
    } else {
        let rest = attributes.skip(1);
        let at = lemma_first_value_is_the_first(rest, key);
        if has_key(attributes, key) {
            let j = choose|j: int| 0 <= j < attributes.len() && (#[trigger] attributes[j]).0 == key;
            assert(rest[j - 1] == attributes[j]);
        }
        if first_value(attributes, key) is Some {
            assert forall|j: int| 0 <= j < at + 1 implies (#[trigger] attributes[j]).0 != key by {
                if j > 0 {
                    assert(rest[j - 1] == attributes[j]);
                }
            }
        }
        at + 1
    }
}

/// The first element of a name stands where no element before it has the
/// name, and it has the name itself unless that place is the end of the
/// group.
pub proof fn lemma_first_named_is(tags: Seq<TagView>, name: Seq<char>, at: int)
    requires
        0 <= at <= tags.len(),
        forall|i: int| 0 <= i < at ==> (#[trigger] tags[i]).name != name,
        at < tags.len() ==> tags[at].name == name,
    ensures
        first_named(tags, name) == at,
    decreases at,
{
    if at > 0 {
        let rest = tags.skip(1);
        assert forall|i: int| 0 <= i < at - 1 implies (#[trigger] rest[i]).name != name by {
            assert(rest[i] == tags[i + 1]);
        }
        lemma_first_named_is(rest, name, at - 1);
    }
}

/// Where a group holds an element of a name, the first such element is one
/// of the group, has the name, and no element before it has; where it holds
/// none, the place of the first is the end of the group.
pub proof fn lemma_first_named_is_the_first(tags: Seq<TagView>, name: Seq<char>)
    ensures
        0 <= first_named(tags, name) <= tags.len(),
        has_element(tags, name) <==> first_named(tags, name) < tags.len(),
        first_named(tags, name) < tags.len() ==> tags[first_named(tags, name)].name == name,
        forall|i: int| 0 <= i < first_named(tags, name) ==> (#[trigger] tags[i]).name != name,
    decreases tags.len(),
{
    if tags.len() > 0 && tags[0].name != name {
        let rest = tags.skip(1);
        lemma_first_named_is_the_first(rest, name);
        if has_element(tags, name) {
            let i = choose|i: int| 0 <= i < tags.len() && (#[trigger] tags[i]).name == name;
            assert(rest[i - 1] == tags[i]);
        }
        if first_named(rest, name) < rest.len() {
            assert(rest[first_named(rest, name)] == tags[first_named(rest, name) + 1]);
        }
        assert forall|i: int| 0 <= i < first_named(tags, name) implies (#[trigger] tags[i]).name
            != name by {
            if i > 0 {
                assert(rest[i - 1] == tags[i]);
            }
        }
    }
}

/// A lookup is absent exactly where the group lacks what it asks for: an
/// element of the name, or in the first of them an attribute with the key.
pub proof fn lemma_lookup_is_absent_where_lacking(
    tags: Seq<TagView>,
    name: Seq<char>,
    key: Seq<char>,
)
    ensures
        lookup(tags, name, key) is None <==> lacks(tags, name, key),
{
    lemma_first_named_is_the_first(tags, name);
    if first_named(tags, name) < tags.len() {
        let _ = lemma_first_value_is_the_first(tags[first_named(tags, name)].attributes, key);
    }
}

} // verus!

//! Captured elements and the lookup of their attributes.

use vstd::prelude::*;
use vstd::utf8::encode_utf8_decode_utf8;
use crate::bytes::bytes_equal;
use crate::tag_laws::{lemma_first_named_is, lemma_lookup_is_absent_where_lacking};

verus! {

/// A captured element: its name and its attributes in document order, with
/// the values as they stand in the document, still escaped. A key may occur
/// more than once; a lookup takes the first.
#[derive(Clone, Debug, PartialEq, Eq)]
pub struct XmlTag {
    pub name: String,
    pub attributes: Vec<(String, String)>,
}

/// The mathematical value of an [`XmlTag`].
pub struct TagView {
    pub name: Seq<char>,
    pub attributes: Seq<(Seq<char>, Seq<char>)>,
}

/// The values of a list of attributes.
pub open spec fn attribute_views(attributes: Seq<(String, String)>) -> Seq<(Seq<char>, Seq<char>)> {
    Seq::new(attributes.len(), |i: int| (attributes[i].0@, attributes[i].1@))
}

impl View for XmlTag {
    type V = TagView;

    open spec fn view(&self) -> TagView {
        TagView { name: self.name@, attributes: attribute_views(self.attributes@) }
    }
}

/// The values of a group of tags.
pub open spec fn tag_views(tags: Seq<XmlTag>) -> Seq<TagView> {
    Seq::new(tags.len(), |i: int| tags[i]@)
}

/// The values of a list of groups.
pub open spec fn group_views(groups: Seq<Vec<XmlTag>>) -> Seq<Seq<TagView>> {
    Seq::new(groups.len(), |i: int| tag_views(groups[i]@))
}

/// The value of the first attribute with the given key, if there is one.
pub open spec fn first_value(attributes: Seq<(Seq<char>, Seq<char>)>, key: Seq<char>) -> Option<
    Seq<char>,
>
    decreases attributes.len(),
{
    if attributes.len() == 0 {
        None
    } else if attributes[0].0 == key {
        Some(attributes[0].1)
    } else {
        first_value(attributes.skip(1), key)
    }
}

/// The place of the first element of the given name, or the length of the
/// group where it holds none.
pub open spec fn first_named(tags: Seq<TagView>, name: Seq<char>) -> int
    decreases tags.len(),
{
    if tags.len() == 0 || tags[0].name == name {
        0
    } else {
        1 + first_named(tags.skip(1), name)
    }
}

/// The value that a group gives for an element name and an attribute key:
/// that of the first attribute with the key in the first element of that
/// name. Later elements of the name, and later attributes with the key, are
/// not looked at.
pub open spec fn lookup(tags: Seq<TagView>, name: Seq<char>, key: Seq<char>) -> Option<Seq<char>> {
    let at = first_named(tags, name);
    if 0 <= at < tags.len() {
        first_value(tags[at].attributes, key)
    } else {
        None
    }
}

/// Whether the attributes hold one with the given key.
pub open spec fn has_key(attributes: Seq<(Seq<char>, Seq<char>)>, key: Seq<char>) -> bool {
    exists|j: int| 0 <= j < attributes.len() && (#[trigger] attributes[j]).0 == key
}

/// Whether the group holds an element of the given name.
pub open spec fn has_element(tags: Seq<TagView>, name: Seq<char>) -> bool {
    exists|i: int| 0 <= i < tags.len() && (#[trigger] tags[i]).name == name
}

/// Whether the group lacks what a lookup asks for: it holds no element of
/// the name, or the first of them has no attribute with the key.
pub open spec fn lacks(tags: Seq<TagView>, name: Seq<char>, key: Seq<char>) -> bool {
    !has_element(tags, name) || !has_key(tags[first_named(tags, name)].attributes, key)
}

/// Whether two texts are the same.
pub fn text_equal(a: &str, b: &str) -> (same: bool)
    ensures
        same == (a@ == b@),
{
    proof {
        encode_utf8_decode_utf8(a@);
        encode_utf8_decode_utf8(b@);
    }
    bytes_equal(a.as_bytes(), b.as_bytes())
}

/// The value of the first attribute of `tag` with the given key.
fn attribute_of<'a>(tag: &'a XmlTag, key: &str) -> (value: Option<&'a String>)
    ensures
        match value {
            Some(v) => first_value(tag@.attributes, key@) == Some(v@),
            None => first_value(tag@.attributes, key@) is None,
        },
{
    let ghost all = tag@.attributes;
    let mut i: usize = 0;
    assert(all.skip(0) =~= all);
    while i < tag.attributes.len()
        invariant
            i <= tag.attributes@.len(),
            all == tag@.attributes,
            first_value(all, key@) == first_value(all.skip(i as int), key@),
        decreases tag.attributes@.len() - i,
    {
        let pair = &tag.attributes[i];
        if text_equal(pair.0.as_str(), key) {
            return Some(&pair.1);
        }
        assert(all.skip(i as int).skip(1) =~= all.skip(i + 1));
        i += 1;
    }
    None
}

/// Looks an attribute up in a group: the elements are scanned in order for
/// the first one named `tag_query`, and its attributes in order for the
/// first one whose key is `attribute_query`, whose value is returned. `None`
/// where the group holds no element of that name, or the first of them has
/// no such attribute.
pub fn find_attribute(tags: &[XmlTag], tag_query: &str, attribute_query: &str) -> (value: Option<
    String,
>)
    ensures
        match value {
            Some(v) => lookup(tag_views(tags@), tag_query@, attribute_query@) == Some(v@),
            None => lookup(tag_views(tags@), tag_query@, attribute_query@) is None,
        },
        value is None <==> lacks(tag_views(tags@), tag_query@, attribute_query@),
{
    let ghost all = tag_views(tags@);
    proof {
        lemma_lookup_is_absent_where_lacking(all, tag_query@, attribute_query@);
    }
    let mut i: usize = 0;
    while i < tags.len()
        invariant
            i <= tags@.len(),
            all == tag_views(tags@),
            lookup(all, tag_query@, attribute_query@) is None <==> lacks(
                all,
                tag_query@,
                attribute_query@,
            ),
            forall|j: int| 0 <= j < i ==> (#[trigger] all[j]).name != tag_query@,
        decreases tags@.len() - i,
    {
        let tag = &tags[i];
        if text_equal(tag.name.as_str(), tag_query) {
            proof {
                lemma_first_named_is(all, tag_query@, i as int);
            }
            return match attribute_of(tag, attribute_query) {
                Some(v) => Some(v.clone()),
                None => None,
            };
        }
        i += 1;
    }
    proof {
        lemma_first_named_is(all, tag_query@, i as int);
    }
    None
}

} // verus!

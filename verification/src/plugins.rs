//! Listing the plugins that a project refers to.

use vstd::prelude::*;
use vstd::string::StringSliceAdditionalSpecFns;
use crate::error::XmlError;
use crate::event::EventView;
use crate::extract::{capture_outcome, find_tags};
use crate::reader::document_events;
use crate::tag::{find_attribute, group_views, lookup, TagView, XmlTag};

verus! {

/// The values of a list of texts.
pub open spec fn text_views(texts: Seq<String>) -> Seq<Seq<char>> {
    Seq::new(texts.len(), |i: int| texts[i]@)
}

/// The values that the groups give for an element name and an attribute
/// key, in the order of the groups; a group that gives none is passed over.
pub open spec fn found_values(groups: Seq<Seq<TagView>>, name: Seq<char>, key: Seq<char>) -> Seq<
    Seq<char>,
>
    decreases groups.len(),
{
    if groups.len() == 0 {
        Seq::empty()
    } else {
        let before = found_values(groups.drop_last(), name, key);
        match lookup(groups.last(), name, key) {
            Some(value) => before.push(value),
            None => before,
        }
    }
}

/// Looks the attribute up in each group and collects the values found.
pub fn attribute_values(groups: &[Vec<XmlTag>], tag_query: &str, attribute_query: &str) -> (values:
    Vec<String>)
    ensures
        text_views(values@) == found_values(group_views(groups@), tag_query@, attribute_query@),
{
    let ghost all = group_views(groups@);
    let mut values: Vec<String> = Vec::new();
    let mut i: usize = 0;
    while i < groups.len()
        invariant
            i <= groups@.len(),
            all == group_views(groups@),
            text_views(values@) == found_values(all.take(i as int), tag_query@, attribute_query@),
        decreases groups@.len() - i,
    {
        assert(all.take(i + 1).drop_last() =~= all.take(i as int));
        if let Some(value) = find_attribute(groups[i].as_slice(), tag_query, attribute_query) {
            values.push(value);
        }
        i += 1;
    }
    assert(all.take(i as int) =~= all);
    values
}

/// The names that listing the plugins of a stream of events gives.
pub open spec fn names_outcome(
    events: Seq<EventView>,
    container: Seq<u8>,
    element: Seq<char>,
    key: Seq<char>,
) -> Result<Seq<Seq<char>>, XmlError> {
    match capture_outcome(events, container) {
        Ok(groups) => Ok(found_values(groups, element, key)),
        Err(e) => Err(e),
    }
}

/// Whether the names, or the failure in their place, have the value `wanted`.
pub open spec fn is_names(r: Result<Vec<String>, XmlError>, wanted: Result<Seq<Seq<char>>, XmlError>) -> bool {
    match r {
        Ok(names) => wanted == Ok::<Seq<Seq<char>>, XmlError>(text_views(names@)),
        Err(e) => wanted == Err::<Seq<Seq<char>>, XmlError>(e),
    }
}

/// Lists the plugins of a document: for each occurrence of the element
/// named `container`, the value of attribute `key` of the element named
/// `element` inside it. An occurrence without such a value is passed over.
pub fn list_plugin_names(xml_data: &[u8], container: &str, element: &str, key: &str) -> (r: Result<
    Vec<String>,
    XmlError,
>)
    ensures
        is_names(
            r,
            names_outcome(document_events(xml_data@), container.spec_bytes(), element@, key@),
        ),
{
    match find_tags(xml_data, container) {
        Ok(groups) => Ok(attribute_values(groups.as_slice(), element, key)),
        Err(e) => Err(e),
    }
}

/// The names of the plugins referred to in the older form:
/// `VstPluginInfo` elements, each named by the `Value` of its `PlugName`.
pub fn find_vst_plugins(xml_data: &[u8]) -> (r: Result<Vec<String>, XmlError>)
    ensures
        is_names(
            r,
            names_outcome(
                document_events(xml_data@),
                "VstPluginInfo".spec_bytes(),
                "PlugName"@,
                "Value"@,
            ),
        ),
{
    list_plugin_names(xml_data, "VstPluginInfo", "PlugName", "Value")
}

/// The names of the plugins referred to in the newer form:
/// `Vst3PluginInfo` elements, each named by the `Value` of its `Name`.
pub fn find_vst3_plugins(xml_data: &[u8]) -> (r: Result<Vec<String>, XmlError>)
    ensures
        is_names(
            r,
            names_outcome(
                document_events(xml_data@),
                "Vst3PluginInfo".spec_bytes(),
                "Name"@,
                "Value"@,
            ),
        ),
{
    list_plugin_names(xml_data, "Vst3PluginInfo", "Name", "Value")
}

} // verus!

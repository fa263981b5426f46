//! The tag extractor: collects, for each occurrence of a named element, the
//! self-closing elements that stand directly inside it.

use quick_xml::events::attributes::{AttrError, Attributes};
use vstd::prelude::*;
use vstd::string::StringSliceAdditionalSpecFns;
use vstd::utf8::{decode_utf8, valid_utf8};
use crate::bytes::bytes_equal;
use crate::error::XmlError;
use crate::event::{
    ends_stream, event_views, is_terminal, lemma_stream_holds, lemma_stream_len, stream, Element,
    ElementView, EventView, XmlEvent,
};
use crate::reader::{document_events, read_events};
use crate::tag::{attribute_views, group_views, tag_views, TagView, XmlTag};
use crate::text::decode_text;

verus! {

#[verifier::external_type_specification]
#[verifier::external_body]
pub struct ExAttrError(AttrError);

/// The attributes that the parser finds in the content of a tag from byte
/// `start` on, as pairs of key and raw value in the order of the document,
/// or `None` where it rejects one of them (a missing `=`, a value without
/// quotes). A key may occur more than once.
pub uninterp spec fn attribute_pairs(content: Seq<char>, start: nat) -> Option<
    Seq<(Seq<u8>, Seq<u8>)>,
>;

/// The values of a list of raw attributes.
pub open spec fn pair_views(pairs: Seq<(Vec<u8>, Vec<u8>)>) -> Seq<(Seq<u8>, Seq<u8>)> {
    Seq::new(pairs.len(), |i: int| (pairs[i].0@, pairs[i].1@))
}

/// `Attributes::new`, with the check for repeated keys switched off by
/// `Attributes::with_checks`, and its iteration to the end or to the first
/// failure: the attributes in `content` from byte `start` on, keys and
/// values copied out as they stand. The iterator slices the content at
/// `start`, so `start` must lie within it.
#[verifier::external_body]
fn parse_attributes(content: &str, start: usize) -> (r: Result<Vec<(Vec<u8>, Vec<u8>)>, AttrError>)
    requires
        start <= content.spec_bytes().len(),
    ensures
        match r {
            Ok(pairs) => attribute_pairs(content@, start as nat) == Some(pair_views(pairs@)),
            Err(_) => attribute_pairs(content@, start as nat) is None,
        },
{
    let mut attributes = Attributes::new(content, start);
    attributes.with_checks(false);
    attributes.map(|found| found.map(|a| (a.key.as_ref().to_vec(), a.value.to_vec()))).collect()
}

/// Whether every key and every value is valid text.
pub open spec fn pairs_are_text(pairs: Seq<(Seq<u8>, Seq<u8>)>) -> bool {
    forall|i: int|
        0 <= i < pairs.len() ==> valid_utf8((#[trigger] pairs[i]).0) && valid_utf8(pairs[i].1)
}

/// The pairs as text.
pub open spec fn decoded_pairs(pairs: Seq<(Seq<u8>, Seq<u8>)>) -> Seq<(Seq<char>, Seq<char>)> {
    Seq::new(pairs.len(), |i: int| (decode_utf8(pairs[i].0), decode_utf8(pairs[i].1)))
}

/// The tag that a name and raw attributes make: `MalformedXml` where the
/// name is not valid text, `AttributeDecode` where a key or a value is not.
pub open spec fn tag_from(name: Seq<u8>, pairs: Seq<(Seq<u8>, Seq<u8>)>) -> Result<
    TagView,
    XmlError,
> {
    if !valid_utf8(name) {
        Err(XmlError::MalformedXml)
    } else if !pairs_are_text(pairs) {
        Err(XmlError::AttributeDecode)
    } else {
        Ok(TagView { name: decode_utf8(name), attributes: decoded_pairs(pairs) })
    }
}

/// Whether a tag, or the failure in its place, has the value `wanted`.
pub open spec fn is_tag(r: Result<XmlTag, XmlError>, wanted: Result<TagView, XmlError>) -> bool {
    match r {
        Ok(tag) => wanted == Ok::<TagView, XmlError>(tag@),
        Err(e) => wanted == Err::<TagView, XmlError>(e),
    }
}

/// Builds a tag from a raw name and raw attributes.
pub fn tag_from_parts(name: &[u8], pairs: &Vec<(Vec<u8>, Vec<u8>)>) -> (r: Result<XmlTag, XmlError>)
    ensures
        is_tag(r, tag_from(name@, pair_views(pairs@))),
{
    let name_text = match decode_text(name) {
        Some(text) => text.to_owned(),
        None => {
            return Err(XmlError::MalformedXml);
        },
    };
    let ghost raw = pair_views(pairs@);
    let mut attributes: Vec<(String, String)> = Vec::new();
    let mut i: usize = 0;
    while i < pairs.len()
        invariant
            i <= pairs@.len(),
            raw == pair_views(pairs@),
            valid_utf8(name@),
            attributes@.len() == i,
            forall|j: int| 0 <= j < i ==> valid_utf8((#[trigger] raw[j]).0) && valid_utf8(raw[j].1),
            forall|j: int|
                0 <= j < i ==> (#[trigger] attributes@[j]).0@ == decode_utf8(raw[j].0)
                    && attributes@[j].1@ == decode_utf8(raw[j].1),
        decreases pairs@.len() - i,
    {
        let pair = &pairs[i];
        let key = match decode_text(pair.0.as_slice()) {
            Some(text) => text.to_owned(),
            None => {
                assert(!valid_utf8(raw[i as int].0));
                return Err(XmlError::AttributeDecode);
            },
        };
        let value = match decode_text(pair.1.as_slice()) {
            Some(text) => text.to_owned(),
            None => {
                assert(!valid_utf8(raw[i as int].1));
                return Err(XmlError::AttributeDecode);
            },
        };
        attributes.push((key, value));
        i += 1;
    }
    assert(attribute_views(attributes@) =~= decoded_pairs(raw));
    Ok(XmlTag { name: name_text, attributes })
}

/// The tag that a captured element makes. `MalformedXml` where its name is
/// not valid text or is longer than its content, or the parser rejects an
/// attribute; `AttributeDecode` where the content is not valid text.
pub open spec fn captured_tag(el: ElementView) -> Result<TagView, XmlError> {
    if !valid_utf8(el.name) {
        Err(XmlError::MalformedXml)
    } else if !valid_utf8(el.content) {
        Err(XmlError::AttributeDecode)
    } else if el.name.len() > el.content.len() {
        Err(XmlError::MalformedXml)
    } else {
        match attribute_pairs(decode_utf8(el.content), el.name.len()) {
            Some(pairs) => tag_from(el.name, pairs),
            None => Err(XmlError::MalformedXml),
        }
    }
}

/// Turns a captured element into a tag.
pub fn capture_element(el: &Element) -> (r: Result<XmlTag, XmlError>)
    ensures
        is_tag(r, captured_tag(el@)),
{
    if decode_text(el.name.as_slice()).is_none() {
        return Err(XmlError::MalformedXml);
    }
    let content = match decode_text(el.content.as_slice()) {
        Some(text) => text,
        None => {
            return Err(XmlError::AttributeDecode);
        },
    };
    if el.name.len() > el.content.len() {
        return Err(XmlError::MalformedXml);
    }
    match parse_attributes(content, el.name.len()) {
        Ok(pairs) => tag_from_parts(el.name.as_slice(), &pairs),
        Err(_) => Err(XmlError::MalformedXml),
    }
}

/// What the extractor knows after a run of events.
pub struct CaptureState {
    /// Whether an occurrence of the searched element is open.
    pub inside: bool,
    /// Inside an occurrence, the number of other elements opened in it and
    /// not closed yet.
    pub depth: int,
    /// The elements captured in the occurrence that is open.
    pub current: Seq<TagView>,
    /// The groups of the occurrences that were closed, in document order.
    pub groups: Seq<Seq<TagView>>,
}

/// The state before the first event.
pub open spec fn capture_start() -> CaptureState {
    CaptureState { inside: false, depth: 0, current: Seq::empty(), groups: Seq::empty() }
}

/// One transition of the extractor, or the failure that the event brings.
///
/// An opening tag of the searched name starts an occurrence, with a new
/// group and the depth at zero, also inside an occurrence; any other
/// opening tag inside one adds to the depth, and any other closing tag
/// takes from it. A self-closing element is captured inside an occurrence
/// at depth zero. A closing tag of the searched name ends the occurrence,
/// whatever the depth, and its group joins the result.
pub open spec fn capture_step(s: CaptureState, e: EventView, search: Seq<u8>) -> Result<
    CaptureState,
    XmlError,
> {
    match e {
        EventView::Start(el) => if el.name == search {
            Ok(CaptureState { inside: true, depth: 0, current: Seq::empty(), ..s })
        } else if s.inside {
            Ok(CaptureState { depth: s.depth + 1, ..s })
        } else {
            Ok(s)
        },
        EventView::Empty(el) => if s.inside && s.depth == 0 {
            match captured_tag(el) {
                Ok(tag) => Ok(CaptureState { current: s.current.push(tag), ..s }),
                Err(e) => Err(e),
            }
        } else {
            Ok(s)
        },
        EventView::End(name) => if name == search {
            Ok(
                CaptureState {
                    inside: false,
                    depth: s.depth,
                    current: Seq::empty(),
                    groups: s.groups.push(s.current),
                },
            )
        } else if s.inside {
            Ok(CaptureState { depth: s.depth - 1, ..s })
        } else {
            Ok(s)
        },
        EventView::Text(_) => Ok(s),
        EventView::Other => Ok(s),
        EventView::Eof => Ok(s),
        EventView::Malformed => Err(XmlError::MalformedXml),
    }
}

/// The state after all of `events`, or the first failure among them.
pub open spec fn capture_run(events: Seq<EventView>, search: Seq<u8>) -> Result<
    CaptureState,
    XmlError,
>
    decreases events.len(),
{
    if events.len() == 0 {
        Ok(capture_start())
    } else {
        match capture_run(events.drop_last(), search) {
            Ok(s) => capture_step(s, events.last(), search),
            Err(e) => Err(e),
        }
    }
}

/// The groups found in `events`, read up to the first terminal event: one
/// for each closing tag of the searched name, in document order. An
/// occurrence that is still open at the end gives no group.
pub open spec fn capture_outcome(events: Seq<EventView>, search: Seq<u8>) -> Result<
    Seq<Seq<TagView>>,
    XmlError,
> {
    match capture_run(stream(events), search) {
        Ok(s) => Ok(s.groups),
        Err(e) => Err(e),
    }
}

/// Once the extractor has failed, the failure stays.
pub proof fn lemma_capture_fails_for_good(
    events: Seq<EventView>,
    search: Seq<u8>,
    failed: int,
    later: int,
)
    requires
        0 <= failed <= later <= events.len(),
        capture_run(events.take(failed), search) is Err,
    ensures
        capture_run(events.take(later), search) == capture_run(events.take(failed), search),
    decreases later - failed,
{
    if failed < later {
        lemma_capture_fails_for_good(events, search, failed, later - 1);
        assert(events.take(later).drop_last() =~= events.take(later - 1));
    }
}

/// Whether the groups, or the failure in their place, have the value `wanted`.
pub open spec fn is_groups(
    r: Result<Vec<Vec<XmlTag>>, XmlError>,
    wanted: Result<Seq<Seq<TagView>>, XmlError>,
) -> bool {
    match r {
        Ok(groups) => wanted == Ok::<Seq<Seq<TagView>>, XmlError>(group_views(groups@)),
        Err(e) => wanted == Err::<Seq<Seq<TagView>>, XmlError>(e),
    }
}

/// The extractor while it runs.
struct Capture {
    inside: bool,
    depth: i128,
    current: Vec<XmlTag>,
    groups: Vec<Vec<XmlTag>>,
}

impl Capture {
    spec fn state(&self) -> CaptureState {
        CaptureState {
            inside: self.inside,
            depth: self.depth as int,
            current: tag_views(self.current@),
            groups: group_views(self.groups@),
        }
    }

    fn new() -> (c: Capture)
        ensures
            c.state() == capture_start(),
    {
        let c = Capture { inside: false, depth: 0, current: Vec::new(), groups: Vec::new() };
        assert(tag_views(c.current@) =~= Seq::<TagView>::empty());
        assert(group_views(c.groups@) =~= Seq::<Seq<TagView>>::empty());
        c
    }

    /// Takes one event.
    fn step(&mut self, event: &XmlEvent, search: &str) -> (r: Result<(), XmlError>)
        requires
            i128::MIN < old(self).depth < i128::MAX,
        ensures
            match r {
                Ok(_) => capture_step(old(self).state(), event@, search.spec_bytes()) == Ok::<
                    CaptureState,
                    XmlError,
                >(final(self).state()),
                Err(e) => capture_step(old(self).state(), event@, search.spec_bytes()) == Err::<
                    CaptureState,
                    XmlError,
                >(e),
            },
            old(self).depth - 1 <= final(self).depth <= old(self).depth + 1 || final(self).depth
                == 0,
    {
        match event {
            XmlEvent::Start(el) => {
                if bytes_equal(el.name.as_slice(), search.as_bytes()) {
                    self.inside = true;
                    self.depth = 0;
                    self.current = Vec::new();
                    assert(tag_views(self.current@) =~= Seq::<TagView>::empty());
                } else if self.inside {
                    self.depth = self.depth + 1;
                }
                Ok(())
            },
            XmlEvent::Empty(el) => {
                if self.inside && self.depth == 0 {
                    match capture_element(el) {
                        Ok(tag) => {
                            self.current.push(tag);
                            assert(tag_views(self.current@) =~= tag_views(old(self).current@).push(
                                tag@,
                            ));
                            Ok(())
                        },
                        Err(e) => Err(e),
                    }
                } else {
                    Ok(())
                }
            },
            XmlEvent::End(name) => {
                if bytes_equal(name.as_slice(), search.as_bytes()) {
                    self.inside = false;
                    let mut group: Vec<XmlTag> = Vec::new();
                    std::mem::swap(&mut self.current, &mut group);
                    self.groups.push(group);
                    assert(tag_views(self.current@) =~= Seq::<TagView>::empty());
                    assert(group_views(self.groups@) =~= group_views(old(self).groups@).push(
                        tag_views(old(self).current@),
                    ));
                } else if self.inside {
                    self.depth = self.depth - 1;
                }
                Ok(())
            },
            XmlEvent::Text(_) => Ok(()),
            XmlEvent::Other => Ok(()),
            XmlEvent::Eof => Ok(()),
            XmlEvent::Malformed => Err(XmlError::MalformedXml),
        }
    }
}

/// Collects the groups of a run of events: for each closing tag named
/// `search`, the self-closing elements captured since the occurrence was
/// opened, in document order. Events after the first terminal one are not
/// looked at.
///
/// Fails with the first failure met: `MalformedXml` where the stream ends
/// in `Malformed`, and what [`capture_element`] reports for an element that
/// is captured.
pub fn capture_groups(events: &[XmlEvent], search: &str) -> (r: Result<Vec<Vec<XmlTag>>, XmlError>)
    ensures
        is_groups(r, capture_outcome(event_views(events@), search.spec_bytes())),
{
    let ghost views = event_views(events@);
    let ghost wanted = search.spec_bytes();
    let mut capture = Capture::new();
    let mut i: usize = 0;
    while i < events.len() && !ends_stream(&events[i])
        invariant
            i <= events@.len(),
            views == event_views(events@),
            wanted == search.spec_bytes(),
            -(i as int) <= capture.depth <= i,
            capture_run(views.take(i as int), wanted) == Ok::<CaptureState, XmlError>(
                capture.state(),
            ),
            forall|j: int| 0 <= j < i ==> !is_terminal(#[trigger] views[j]),
        decreases events@.len() - i,
    {
        let r = capture.step(&events[i], search);
        assert(views.take(i + 1).drop_last() =~= views.take(i as int));
        match r {
            Ok(_) => {},
            Err(e) => {
                proof {
                    lemma_stream_holds(views, i + 1);
                    lemma_capture_fails_for_good(views, wanted, i + 1, stream(views).len() as int);
                }
                return Err(e);
            },
        }
        i += 1;
    }
    proof {
        lemma_stream_len(views, i as int);
    }
    if i < events.len() {
        let r = capture.step(&events[i], search);
        assert(views.take(i + 1).drop_last() =~= views.take(i as int));
        match r {
            Ok(_) => {},
            Err(e) => {
                return Err(e);
            },
        }
    } else {
        assert(views.take(i as int) =~= views);
    }
    Ok(capture.groups)
}

/// Finds the occurrences of the element named `search_query` in a document
/// and returns one group for each, as [`capture_groups`] does on the
/// document's events.
pub fn find_tags(xml_data: &[u8], search_query: &str) -> (r: Result<Vec<Vec<XmlTag>>, XmlError>)
    ensures
        is_groups(r, capture_outcome(document_events(xml_data@), search_query.spec_bytes())),
{
    let events = read_events(xml_data);
    capture_groups(events.as_slice(), search_query)
}

} // verus!

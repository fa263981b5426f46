//! The tag filter: removes the subtrees rooted at listed element names and
//! writes everything else back with one tag per line, indented by depth.

use vstd::prelude::*;
use vstd::slice::slice_to_vec;
use vstd::string::StringSliceAdditionalSpecFns;
use crate::bytes::{append_bytes, bytes_equal};
use crate::error::XmlError;
use crate::event::{
    ends_stream, event_views, is_terminal, lemma_stream_holds, lemma_stream_len, stream, EventView,
    XmlEvent,
};
use crate::reader::{document_events, read_events};

verus! {

/// Width of one level of indentation, in spaces.
pub const INDENT_UNIT: usize = 4;

/// The byte of a space.
pub const SPACE: u8 = 32;

/// The byte of a line break.
pub const NEWLINE: u8 = 10;

/// The byte of `<`.
pub const LESS_THAN: u8 = 60;

/// The byte of `>`.
pub const GREATER_THAN: u8 = 62;

/// The byte of `/`.
pub const SLASH: u8 = 47;

/// The indentation in front of a tag at nesting level `level`.
pub open spec fn indentation(level: nat) -> Seq<u8> {
    Seq::new(INDENT_UNIT as nat * level, |i: int| SPACE)
}

/// `<content>`
pub open spec fn start_tag(content: Seq<u8>) -> Seq<u8> {
    seq![LESS_THAN] + content + seq![GREATER_THAN]
}

/// `</name>`
pub open spec fn end_tag(name: Seq<u8>) -> Seq<u8> {
    seq![LESS_THAN, SLASH] + name + seq![GREATER_THAN]
}

/// `<content/>`
pub open spec fn empty_tag(content: Seq<u8>) -> Seq<u8> {
    seq![LESS_THAN] + content + seq![SLASH, GREATER_THAN]
}

/// A tag on a line of its own at nesting level `level`.
pub open spec fn tag_line(level: nat, tag: Seq<u8>) -> Seq<u8> {
    indentation(level) + tag + seq![NEWLINE]
}

/// The set of element names that a list of names stands for.
pub open spec fn name_set(names: Seq<&str>) -> Set<Seq<u8>> {
    Set::new(
        |name: Seq<u8>|
            exists|i: int| 0 <= i < names.len() && #[trigger] names[i].spec_bytes() == name,
    )
}

/// What the filter knows after a run of events.
pub struct FilterState {
    /// The document written so far.
    pub output: Seq<u8>,
    /// The names of the retained elements that are still open, innermost last.
    pub open: Seq<Seq<u8>>,
    /// Zero outside any deleted subtree; inside one, the number of elements
    /// of it that are still open, its root included.
    pub depth: int,
}

/// The state before the first event.
pub open spec fn filter_start() -> FilterState {
    FilterState { output: Seq::empty(), open: Seq::empty(), depth: 0 }
}

/// One transition of the filter, or `None` where the event shows the
/// document to be malformed.
pub open spec fn filter_step(s: FilterState, e: EventView, names: Set<Seq<u8>>) -> Option<
    FilterState,
> {
    match e {
        EventView::Start(el) => if s.depth > 0 {
            Some(FilterState { depth: s.depth + 1, ..s })
        } else if names.contains(el.name) {
            Some(FilterState { depth: 1, ..s })
        } else {
            Some(
                FilterState {
                    output: s.output + tag_line(s.open.len(), start_tag(el.content)),
                    open: s.open.push(el.name),
                    depth: s.depth,
                },
            )
        },
        EventView::End(name) => if s.depth > 0 {
            Some(FilterState { depth: s.depth - 1, ..s })
        } else if s.open.len() > 0 && s.open.last() == name {
            Some(
                FilterState {
                    output: s.output + tag_line((s.open.len() - 1) as nat, end_tag(name)),
                    open: s.open.drop_last(),
                    depth: s.depth,
                },
            )
        } else {
            None
        },
        EventView::Empty(el) => if s.depth > 0 || names.contains(el.name) {
            Some(s)
        } else {
            Some(
                FilterState {
                    output: s.output + tag_line(s.open.len(), empty_tag(el.content)),
                    ..s
                },
            )
        },
        EventView::Text(text) => if s.depth > 0 {
            Some(s)
        } else {
            Some(FilterState { output: s.output + text, ..s })
        },
        EventView::Other => Some(s),
        EventView::Eof => Some(s),
        EventView::Malformed => None,
    }
}

/// The state after all of `events`, or `None` where one of them shows the
/// document to be malformed.
pub open spec fn filter_run(events: Seq<EventView>, names: Set<Seq<u8>>) -> Option<FilterState>
    decreases events.len(),
{
    if events.len() == 0 {
        Some(filter_start())
    } else {
        match filter_run(events.drop_last(), names) {
            Some(s) => filter_step(s, events.last(), names),
            None => None,
        }
    }
}

/// The filtered document, or the failure: the filter reads `events` up to
/// the first terminal event and fails where the stream is malformed.
pub open spec fn filter_outcome(events: Seq<EventView>, names: Set<Seq<u8>>) -> Result<
    Seq<u8>,
    XmlError,
> {
    match filter_run(stream(events), names) {
        Some(s) => Ok(s.output),
        None => Err(XmlError::MalformedXml),
    }
}

/// Once the filter has failed, no further event mends it.
pub proof fn lemma_filter_fails_for_good(
    events: Seq<EventView>,
    names: Set<Seq<u8>>,
    failed: int,
    later: int,
)
    requires
        0 <= failed <= later <= events.len(),
        filter_run(events.take(failed), names) is None,
    ensures
        filter_run(events.take(later), names) is None,
    decreases later - failed,
{
    if failed < later {
        lemma_filter_fails_for_good(events, names, failed, later - 1);
        assert(events.take(later).drop_last() =~= events.take(later - 1));
    }
}

/// Whether a result of the filter has the value `wanted`.
pub open spec fn is_outcome(r: Result<Vec<u8>, XmlError>, wanted: Result<Seq<u8>, XmlError>) -> bool {
    match r {
        Ok(out) => wanted == Ok::<Seq<u8>, XmlError>(out@),
        Err(e) => wanted == Err::<Seq<u8>, XmlError>(e),
    }
}

/// The values of a stack of names.
pub open spec fn name_views(names: Seq<Vec<u8>>) -> Seq<Seq<u8>> {
    Seq::new(names.len(), |i: int| names[i]@)
}

/// Whether `name` is one of `names`.
pub fn is_listed(name: &[u8], names: &[&str]) -> (listed: bool)
    ensures
        listed == name_set(names@).contains(name@),
{
    let mut i: usize = 0;
    while i < names.len()
        invariant
            i <= names@.len(),
            forall|j: int| 0 <= j < i ==> (#[trigger] names@[j]).spec_bytes() != name@,
        decreases names@.len() - i,
    {
        if bytes_equal(names[i].as_bytes(), name) {
            return true;
        }
        i += 1;
    }
    false
}

/// The three shapes of a tag.
#[derive(Clone, Copy, PartialEq, Eq, Structural)]
enum TagShape {
    Opening,
    Closing,
    SelfClosing,
}

/// The bytes of a tag of the given shape.
spec fn shaped_tag(shape: TagShape, body: Seq<u8>) -> Seq<u8> {
    match shape {
        TagShape::Opening => start_tag(body),
        TagShape::Closing => end_tag(body),
        TagShape::SelfClosing => empty_tag(body),
    }
}

/// Writes `indent`, the tag and a line break.
fn write_tag_line(out: &mut Vec<u8>, indent: &Vec<u8>, shape: TagShape, body: &[u8])
    ensures
        final(out)@ == old(out)@ + (indent@ + shaped_tag(shape, body@) + seq![NEWLINE]),
{
    append_bytes(out, indent.as_slice());
    out.push(LESS_THAN);
    if shape == TagShape::Closing {
        out.push(SLASH);
    }
    append_bytes(out, body);
    if shape == TagShape::SelfClosing {
        out.push(SLASH);
    }
    out.push(GREATER_THAN);
    out.push(NEWLINE);
}

/// Lengthens `indent` by one unit.
fn grow_indent(indent: &mut Vec<u8>)
    ensures
        final(indent)@ == old(indent)@ + Seq::new(INDENT_UNIT as nat, |i: int| SPACE),
{
    let mut unit: usize = 0;
    while unit < INDENT_UNIT
        invariant
            unit <= INDENT_UNIT,
            indent@ == old(indent)@ + Seq::new(unit as nat, |i: int| SPACE),
        decreases INDENT_UNIT - unit,
    {
        indent.push(SPACE);
        unit += 1;
    }
}

/// The filter while it runs.
struct Filter {
    output: Vec<u8>,
    open: Vec<Vec<u8>>,
    indent: Vec<u8>,
    depth: usize,
}

impl Filter {
    spec fn state(&self) -> FilterState {
        FilterState {
            output: self.output@,
            open: name_views(self.open@),
            depth: self.depth as int,
        }
    }

    /// The indentation string always holds one unit per open element.
    spec fn wf(&self) -> bool {
        self.indent@ == indentation(self.open@.len())
    }

    fn new() -> (f: Filter)
        ensures
            f.wf(),
            f.state() == filter_start(),
    {
        let f = Filter { output: Vec::new(), open: Vec::new(), indent: Vec::new(), depth: 0 };
        assert(f.indent@ =~= indentation(0));
        assert(name_views(f.open@) =~= Seq::<Seq<u8>>::empty());
        f
    }

    /// Takes one event; `false` where it shows the document to be malformed.
    fn step(&mut self, event: &XmlEvent, names: &[&str]) -> (ok: bool)
        requires
            old(self).wf(),
            old(self).depth < usize::MAX,
        ensures
            ok ==> final(self).wf() && filter_step(old(self).state(), event@, name_set(names@))
                == Some(final(self).state()),
            !ok ==> filter_step(old(self).state(), event@, name_set(names@)) is None,
            final(self).depth <= old(self).depth + 1,
    {
        match event {
            XmlEvent::Start(el) => {
                if self.depth > 0 {
                    self.depth = self.depth + 1;
                } else if is_listed(el.name.as_slice(), names) {
                    self.depth = 1;
                } else {
                    write_tag_line(
                        &mut self.output,
                        &self.indent,
                        TagShape::Opening,
                        el.content.as_slice(),
                    );
                    self.open.push(slice_to_vec(el.name.as_slice()));
                    grow_indent(&mut self.indent);
                    assert(self.indent@ =~= indentation(self.open@.len()));
                    assert(name_views(self.open@) =~= name_views(old(self).open@).push(
                        el.name@,
                    ));
                }
                true
            },
            XmlEvent::End(name) => {
                if self.depth > 0 {
                    self.depth = self.depth - 1;
                    true
                } else {
                    let n = self.open.len();
                    if n > 0 && bytes_equal(self.open[n - 1].as_slice(), name.as_slice()) {
                        self.open.pop();
                        self.indent.truncate(self.indent.len() - INDENT_UNIT);
                        assert(self.indent@ =~= indentation(self.open@.len()));
                        write_tag_line(
                            &mut self.output,
                            &self.indent,
                            TagShape::Closing,
                            name.as_slice(),
                        );
                        assert(name_views(self.open@) =~= name_views(
                            old(self).open@,
                        ).drop_last());
                        true
                    } else {
                        false
                    }
                }
            },
            XmlEvent::Empty(el) => {
                if self.depth == 0 && !is_listed(el.name.as_slice(), names) {
                    write_tag_line(
                        &mut self.output,
                        &self.indent,
                        TagShape::SelfClosing,
                        el.content.as_slice(),
                    );
                }
                true
            },
            XmlEvent::Text(text) => {
                if self.depth == 0 {
                    append_bytes(&mut self.output, text.as_slice());
                }
                true
            },
            XmlEvent::Other => true,
            XmlEvent::Eof => true,
            XmlEvent::Malformed => false,
        }
    }
}

/// Filters a run of events: the subtrees rooted at an element whose name is
/// one of `names` are left out, self-closing elements of such a name too,
/// and every other tag is written on a line of its own, indented by four
/// spaces for each retained element that is open around it. Text is written
/// as it stands. Events after the first terminal one are not looked at.
///
/// Fails with `MalformedXml`, and gives no output, where the stream ends in
/// `Malformed` or a closing tag outside any deleted subtree does not close
/// the innermost retained element that is open.
pub fn filter_events(events: &[XmlEvent], names: &[&str]) -> (r: Result<Vec<u8>, XmlError>)
    ensures
        is_outcome(r, filter_outcome(event_views(events@), name_set(names@))),
{
    let ghost views = event_views(events@);
    let ghost wanted = name_set(names@);
    let mut filter = Filter::new();
    let mut i: usize = 0;
    while i < events.len() && !ends_stream(&events[i])
        invariant
            i <= events@.len(),
            views == event_views(events@),
            wanted == name_set(names@),
            filter.wf(),
            filter.depth <= i,
            filter_run(views.take(i as int), wanted) == Some(filter.state()),
            forall|j: int| 0 <= j < i ==> !is_terminal(#[trigger] views[j]),
        decreases events@.len() - i,
    {
        let ok = filter.step(&events[i], names);
        assert(views.take(i + 1).drop_last() =~= views.take(i as int));
        if !ok {
            proof {
                lemma_stream_holds(views, i + 1);
                lemma_filter_fails_for_good(views, wanted, i + 1, stream(views).len() as int);
            }
            return Err(XmlError::MalformedXml);
        }
        i += 1;
    }
    proof {
        lemma_stream_len(views, i as int);
    }
    if i < events.len() {
        let ok = filter.step(&events[i], names);
        assert(views.take(i + 1).drop_last() =~= views.take(i as int));
        if !ok {
            return Err(XmlError::MalformedXml);
        }
    } else {
        assert(views.take(i as int) =~= views);
    }
    Ok(filter.output)
}

/// Removes from a document every element whose name is one of
/// `tags_to_delete`, with all that it holds, and writes the rest back as
/// [`filter_events`] does. Fails with `MalformedXml`, and gives no output,
/// where the parser rejects the document, a tag name is not valid UTF-8, or
/// a closing tag outside any deleted subtree closes nothing.
pub fn remove_tags(xml_data: &Vec<u8>, tags_to_delete: Vec<&str>) -> (r: Result<Vec<u8>, XmlError>)
    ensures
        is_outcome(r, filter_outcome(document_events(xml_data@), name_set(tags_to_delete@))),
{
    let events = read_events(xml_data.as_slice());
    filter_events(events.as_slice(), tags_to_delete.as_slice())
}

} // verus!

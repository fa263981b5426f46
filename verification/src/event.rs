//! The events of an XML document, as plain values.

use vstd::prelude::*;

verus! {

/// The tag of an element: its name and the raw bytes between `<` and `>`
/// (or `/>`), name and attributes included.
#[derive(Clone, Debug, PartialEq, Eq)]
pub struct Element {
    pub name: Vec<u8>,
    pub content: Vec<u8>,
}

/// The mathematical value of an [`Element`].
pub struct ElementView {
    pub name: Seq<u8>,
    pub content: Seq<u8>,
}

impl View for Element {
    type V = ElementView;

    open spec fn view(&self) -> ElementView {
        ElementView { name: self.name@, content: self.content@ }
    }
}

/// One event of a document's event stream.
#[derive(Clone, Debug, PartialEq, Eq)]
pub enum XmlEvent {
    /// An opening tag.
    Start(Element),
    /// A closing tag, with its name.
    End(Vec<u8>),
    /// A self-closing tag.
    Empty(Element),
    /// Character data between tags, still escaped.
    Text(Vec<u8>),
    /// Markup that neither component looks at: comments, CDATA sections,
    /// declarations, processing instructions and document types.
    Other,
    /// The end of the document.
    Eof,
    /// The point at which the document stopped being well-formed.
    Malformed,
}

/// The mathematical value of an [`XmlEvent`].
pub enum EventView {
    Start(ElementView),
    End(Seq<u8>),
    Empty(ElementView),
    Text(Seq<u8>),
    Other,
    Eof,
    Malformed,
}

impl View for XmlEvent {
    type V = EventView;

    open spec fn view(&self) -> EventView {
        match *self {
            XmlEvent::Start(e) => EventView::Start(e@),
            XmlEvent::End(n) => EventView::End(n@),
            XmlEvent::Empty(e) => EventView::Empty(e@),
            XmlEvent::Text(t) => EventView::Text(t@),
            XmlEvent::Other => EventView::Other,
            XmlEvent::Eof => EventView::Eof,
            XmlEvent::Malformed => EventView::Malformed,
        }
    }
}

/// The values of a run of events.
pub open spec fn event_views(events: Seq<XmlEvent>) -> Seq<EventView> {
    Seq::new(events.len(), |i: int| events[i]@)
}

/// Whether an event ends the stream: nothing after it is looked at.
pub open spec fn is_terminal(e: EventView) -> bool {
    e is Eof || e is Malformed
}

/// Whether the event is a terminal one.
pub fn ends_stream(event: &XmlEvent) -> (terminal: bool)
    ensures
        terminal == is_terminal(event@),
{
    match event {
        XmlEvent::Eof => true,
        XmlEvent::Malformed => true,
        _ => false,
    }
}

/// How many events come before the first terminal one.
pub open spec fn stream_len(events: Seq<EventView>) -> nat
    decreases events.len(),
{
    if events.len() == 0 || is_terminal(events[0]) {
        0
    } else {
        1 + stream_len(events.skip(1))
    }
}

/// The part of `events` that counts: everything up to and including the
/// first terminal event, or all of it where there is none.
pub open spec fn stream(events: Seq<EventView>) -> Seq<EventView> {
    if stream_len(events) < events.len() {
        events.take(stream_len(events) as int + 1)
    } else {
        events
    }
}

/// `stream_len` is the position of the first terminal event, or the length
/// where there is none.
pub proof fn lemma_stream_len(events: Seq<EventView>, n: int)
    requires
        0 <= n <= events.len(),
        forall|j: int| 0 <= j < n ==> !is_terminal(#[trigger] events[j]),
        n < events.len() ==> is_terminal(events[n]),
    ensures
        stream_len(events) == n,
    decreases n,
{
    if n > 0 {
        let rest = events.skip(1);
        assert forall|j: int| 0 <= j < n - 1 implies !is_terminal(#[trigger] rest[j]) by {
        }
        lemma_stream_len(rest, n - 1);
    }
}

/// Where the first `m` events are not terminal, the stream holds them all.
pub proof fn lemma_stream_holds(events: Seq<EventView>, m: int)
    requires
        0 <= m <= events.len(),
        forall|j: int| 0 <= j < m ==> !is_terminal(#[trigger] events[j]),
    ensures
        m <= stream_len(events) <= events.len(),
        m <= stream(events).len() <= events.len(),
        stream(events) == events.take(stream(events).len() as int),
    decreases events.len(),
{
    if events.len() > 0 && !is_terminal(events[0]) {
        let rest = events.skip(1);
        let k = if m > 0 { m - 1 } else { 0 };
        assert forall|j: int| 0 <= j < k implies !is_terminal(#[trigger] rest[j]) by {
        }
        lemma_stream_holds(rest, k);
    }
}

} // verus!

//! Reading a document into events.

use quick_xml::events::Event;
use quick_xml::Reader;
use vstd::prelude::*;
use vstd::utf8::valid_utf8;
use crate::event::{ends_stream, event_views, is_terminal, Element, EventView, XmlEvent};
use crate::text::is_text;

verus! {

#[verifier::external_type_specification]
#[verifier::external_body]
#[verifier::reject_recursive_types(R)]
pub struct ExReader<R>(Reader<R>);

#[verifier::external_type_specification]
#[verifier::external_body]
pub struct ExParseError(quick_xml::Error);

/// The events that the parser hands out for `document`, one for each call,
/// when it trims the white space around text; a call that fails stands in
/// the sequence as `Malformed`.
pub uninterp spec fn parsed_events(document: Seq<u8>) -> Seq<EventView>;

/// What a reader has yet to hand out: the results of its coming calls, one
/// after another, up to and including the first that is `Eof` or a failure,
/// which stands as `Malformed`. Every event but `Eof` uses up at least one
/// byte of the document, so there is always such a first.
pub uninterp spec fn pending(reader: Reader<&[u8]>) -> Seq<EventView>;

/// `Reader::from_reader`, with `Reader::trim_text` switched on: a reader at
/// the start of `document` that leaves out the white space around text, and
/// text that is nothing else.
#[verifier::external_body]
fn open_reader<'a>(document: &'a [u8]) -> (reader: Reader<&'a [u8]>)
    ensures
        pending(reader) == parsed_events(document@),
{
    let mut reader = Reader::from_reader(document);
    reader.trim_text(true);
    reader
}

/// `Reader::read_event_into`: the next event, with its bytes copied out of
/// the parser's buffer. Opening and self-closing tags come with their name
/// and their content, closing tags with their name, text with its bytes; a
/// comment, a CDATA section, a declaration, a processing instruction or a
/// document type comes as `Other`.
///
/// A reader always has something to hand out, what it hands out is the
/// first of what was pending, and unless that ends the stream the rest is
/// pending afterwards.
#[verifier::external_body]
fn next_event(reader: &mut Reader<&[u8]>) -> (r: Result<XmlEvent, quick_xml::Error>)
    ensures
        pending(*old(reader)).len() > 0,
        match r {
            Ok(event) => event@ == pending(*old(reader))[0] && !(event@ is Malformed),
            Err(_) => pending(*old(reader))[0] is Malformed,
        },
        !is_terminal(pending(*old(reader))[0]) ==> pending(*final(reader)) == pending(
            *old(reader),
        ).skip(1),
{
    let mut buf = Vec::new();
    Ok(match reader.read_event_into(&mut buf)? {
        Event::Start(e) => {
            XmlEvent::Start(Element { name: e.name().as_ref().to_vec(), content: e.to_vec() })
        },
        Event::End(e) => XmlEvent::End(e.name().as_ref().to_vec()),
        Event::Empty(e) => {
            XmlEvent::Empty(Element { name: e.name().as_ref().to_vec(), content: e.to_vec() })
        },
        Event::Text(e) => XmlEvent::Text(e.to_vec()),
        Event::Eof => XmlEvent::Eof,
        _ => XmlEvent::Other,
    })
}

/// Whether the name that an event carries, if it carries one, is valid text.
pub open spec fn has_text_name(e: EventView) -> bool {
    match e {
        EventView::Start(el) => valid_utf8(el.name),
        EventView::End(name) => valid_utf8(name),
        EventView::Empty(el) => valid_utf8(el.name),
        _ => true,
    }
}

/// The stream that `events` make once names are checked: it ends with the
/// first terminal event, or before that with `Malformed` in place of the
/// first event whose name is not valid text.
pub open spec fn checked_stream(events: Seq<EventView>) -> Seq<EventView>
    decreases events.len(),
{
    if events.len() == 0 {
        Seq::empty()
    } else if is_terminal(events[0]) {
        seq![events[0]]
    } else if !has_text_name(events[0]) {
        seq![EventView::Malformed]
    } else {
        seq![events[0]] + checked_stream(events.skip(1))
    }
}

/// The event stream of a document.
pub open spec fn document_events(document: Seq<u8>) -> Seq<EventView> {
    checked_stream(parsed_events(document))
}

/// Whether the name that the event carries, if any, is valid text.
fn name_is_text(event: &XmlEvent) -> (valid: bool)
    ensures
        valid == has_text_name(event@),
{
    match event {
        XmlEvent::Start(el) => is_text(el.name.as_slice()),
        XmlEvent::End(name) => is_text(name.as_slice()),
        XmlEvent::Empty(el) => is_text(el.name.as_slice()),
        _ => true,
    }
}

/// Reads a document into its events. The result always ends with `Eof` or
/// with `Malformed`, and holds no terminal event before that; `Malformed`
/// stands where the parser rejected the input or met a tag whose name is
/// not valid UTF-8, so every name in the result is valid UTF-8.
pub fn read_events(document: &[u8]) -> (events: Vec<XmlEvent>)
    ensures
        event_views(events@) == document_events(document@),
        events@.len() > 0,
        is_terminal(events@.last()@),
        forall|j: int| 0 <= j < events@.len() - 1 ==> !is_terminal((#[trigger] events@[j])@),
        forall|j: int| 0 <= j < events@.len() ==> has_text_name((#[trigger] events@[j])@),
{
    let mut reader = open_reader(document);
    let mut events: Vec<XmlEvent> = Vec::new();
    loop
        invariant
            event_views(events@) + checked_stream(pending(reader)) =~= document_events(
                document@,
            ),
            forall|j: int| 0 <= j < events@.len() ==> !is_terminal((#[trigger] events@[j])@),
            forall|j: int| 0 <= j < events@.len() ==> has_text_name((#[trigger] events@[j])@),
        decreases pending(reader).len(),
    {
        let event = match next_event(&mut reader) {
            Ok(event) => event,
            Err(_) => XmlEvent::Malformed,
        };
        let named = name_is_text(&event);
        let last = ends_stream(&event) || !named;
        if !named {
            events.push(XmlEvent::Malformed);
        } else {
            events.push(event);
        }
        if last {
            return events;
        }
    }
}

} // verus!

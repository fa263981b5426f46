use als_xml::event::{Element, XmlEvent};
use als_xml::event::ends_stream;
use als_xml::reader::read_events;

fn element(content: &str) -> Element {
    let name = content.split(' ').next().unwrap();
    Element { name: name.as_bytes().to_vec(), content: content.as_bytes().to_vec() }
}

#[test]
fn reads_a_small_document() {
    let events = read_events(b"<A><B x=\"1\"/>hi</A>");
    assert_eq!(
        events,
        vec![
            XmlEvent::Start(element("A")),
            XmlEvent::Empty(element("B x=\"1\"")),
            XmlEvent::Text(b"hi".to_vec()),
            XmlEvent::End(b"A".to_vec()),
            XmlEvent::Eof,
        ]
    );
}

#[test]
fn an_empty_document_is_just_its_end() {
    assert_eq!(read_events(b""), vec![XmlEvent::Eof]);
}

#[test]
fn white_space_around_text_is_trimmed() {
    let events = read_events(b"<A>\n   hello world \t</A>");
    assert_eq!(
        events,
        vec![
            XmlEvent::Start(element("A")),
            XmlEvent::Text(b"hello world".to_vec()),
            XmlEvent::End(b"A".to_vec()),
            XmlEvent::Eof,
        ]
    );
}

#[test]
fn white_space_between_tags_gives_no_event() {
    let events = read_events(b"  <A>\n  <B/>\n</A>\n");
    assert_eq!(
        events,
        vec![
            XmlEvent::Start(element("A")),
            XmlEvent::Empty(element("B")),
            XmlEvent::End(b"A".to_vec()),
            XmlEvent::Eof,
        ]
    );
}

#[test]
fn other_markup_is_reported_without_content() {
    let events = read_events(b"<?xml version=\"1.0\"?><!-- note --><A><![CDATA[x]]></A>");
    assert_eq!(
        events,
        vec![
            XmlEvent::Other,
            XmlEvent::Other,
            XmlEvent::Start(element("A")),
            XmlEvent::Other,
            XmlEvent::End(b"A".to_vec()),
            XmlEvent::Eof,
        ]
    );
}

#[test]
fn the_name_ends_at_the_first_white_space() {
    let events = read_events(b"<Plug\tName=\"a\" Kind = 'b'>");
    assert_eq!(
        events,
        vec![
            XmlEvent::Start(Element {
                name: b"Plug".to_vec(),
                content: b"Plug\tName=\"a\" Kind = 'b'".to_vec(),
            }),
            XmlEvent::Eof,
        ]
    );
}

#[test]
fn a_self_closing_tag_keeps_the_space_before_its_slash() {
    let events = read_events(b"<B x=\"1\" />");
    assert_eq!(
        events,
        vec![
            XmlEvent::Empty(Element { name: b"B".to_vec(), content: b"B x=\"1\" ".to_vec() }),
            XmlEvent::Eof,
        ]
    );
}

#[test]
fn a_closing_tag_is_named_without_trailing_space() {
    let events = read_events(b"<A></A  >");
    assert_eq!(
        events,
        vec![XmlEvent::Start(element("A")), XmlEvent::End(b"A".to_vec()), XmlEvent::Eof]
    );
}

#[test]
fn a_mismatched_closing_tag_ends_the_stream_as_malformed() {
    let events = read_events(b"<A><B/></C><D/>");
    assert_eq!(
        events,
        vec![XmlEvent::Start(element("A")), XmlEvent::Empty(element("B")), XmlEvent::Malformed]
    );
}

#[test]
fn a_stray_closing_tag_is_malformed() {
    assert_eq!(read_events(b"</A>"), vec![XmlEvent::Malformed]);
}

#[test]
fn a_name_that_is_not_utf8_is_malformed() {
    let events = read_events(b"<A><\xff\xfe/></A>");
    assert_eq!(events, vec![XmlEvent::Start(element("A")), XmlEvent::Malformed]);
}

#[test]
fn a_closing_name_that_is_not_utf8_is_malformed() {
    let events = read_events(b"<\xc3\x28></\xc3\x28>");
    assert_eq!(events, vec![XmlEvent::Malformed]);
}

#[test]
fn text_that_is_not_utf8_is_kept() {
    let events = read_events(b"<A>\xff</A>");
    assert_eq!(
        events,
        vec![
            XmlEvent::Start(element("A")),
            XmlEvent::Text(b"\xff".to_vec()),
            XmlEvent::End(b"A".to_vec()),
            XmlEvent::Eof,
        ]
    );
}

#[test]
fn a_name_in_utf8_is_kept() {
    let events = read_events("<Grüße/>".as_bytes());
    assert_eq!(events, vec![XmlEvent::Empty(element("Grüße")), XmlEvent::Eof]);
}

#[test]
fn an_unclosed_element_reaches_the_end() {
    let events = read_events(b"<A><B>");
    assert_eq!(
        events,
        vec![XmlEvent::Start(element("A")), XmlEvent::Start(element("B")), XmlEvent::Eof]
    );
}

#[test]
fn an_unfinished_comment_is_malformed() {
    assert_eq!(read_events(b"<A/><!-- never closed"), vec![
        XmlEvent::Empty(element("A")),
        XmlEvent::Malformed,
    ]);
}

#[test]
fn every_stream_ends_with_one_terminal_event() {
    let documents: Vec<&[u8]> = vec![b"", b"<A/>", b"<A></B>", b"text", b"<A><B></B></A>", b"<"];
    for document in documents {
        let events = read_events(document);
        assert!(!events.is_empty());
        let last = events.len() - 1;
        assert!(ends_stream(&events[last]));
        for event in &events[..last] {
            assert!(!ends_stream(event));
        }
    }
}

#[test]
fn only_eof_and_malformed_end_a_stream() {
    assert!(ends_stream(&XmlEvent::Eof));
    assert!(ends_stream(&XmlEvent::Malformed));
    assert!(!ends_stream(&XmlEvent::Other));
    assert!(!ends_stream(&XmlEvent::Text(Vec::new())));
    assert!(!ends_stream(&XmlEvent::End(b"A".to_vec())));
    assert!(!ends_stream(&XmlEvent::Start(element("A"))));
    assert!(!ends_stream(&XmlEvent::Empty(element("A"))));
}

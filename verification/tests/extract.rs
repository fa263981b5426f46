use als_xml::error::XmlError;
use als_xml::event::{Element, XmlEvent};
use als_xml::extract::{capture_element, capture_groups, find_tags, tag_from_parts};
use als_xml::tag::XmlTag;

fn element_of(content: &str) -> Element {
    let name = content.split(' ').next().unwrap();
    Element { name: name.as_bytes().to_vec(), content: content.as_bytes().to_vec() }
}

fn made(name: &str, attributes: &[(&str, &str)]) -> XmlTag {
    XmlTag {
        name: name.to_string(),
        attributes: attributes.iter().map(|(k, v)| (k.to_string(), v.to_string())).collect(),
    }
}

#[test]
fn one_group_for_one_occurrence() {
    let groups =
        find_tags(b"<Root><VstPluginInfo><PlugName Value=\"Reverb\"/></VstPluginInfo></Root>", "VstPluginInfo");
    assert_eq!(groups, Ok(vec![vec![made("PlugName", &[("Value", "Reverb")])]]));
}

#[test]
fn one_group_for_each_occurrence_in_document_order() {
    let document = b"<R><S><A i=\"1\"/></S><T><S><B i=\"2\"/><C i=\"3\"/></S></T><S></S></R>";
    let groups = find_tags(document, "S").unwrap();
    assert_eq!(groups.len(), 3);
    assert_eq!(groups[0], vec![made("A", &[("i", "1")])]);
    assert_eq!(groups[1], vec![made("B", &[("i", "2")]), made("C", &[("i", "3")])]);
    assert_eq!(groups[2], Vec::<XmlTag>::new());
}

#[test]
fn no_occurrence_gives_no_group() {
    assert_eq!(find_tags(b"<R><A/><B></B></R>", "S"), Ok(Vec::new()));
    assert_eq!(find_tags(b"", "S"), Ok(Vec::new()));
}

#[test]
fn a_self_closing_occurrence_gives_no_group() {
    assert_eq!(find_tags(b"<R><S/><S x=\"1\"/></R>", "S"), Ok(Vec::new()));
}

#[test]
fn entries_keep_their_order_and_their_attributes_theirs() {
    let groups = find_tags(b"<S><Z c=\"3\" a=\"1\" b='2'/><A/><M k=\"\"/></S>", "S").unwrap();
    assert_eq!(
        groups,
        vec![vec![
            made("Z", &[("c", "3"), ("a", "1"), ("b", "2")]),
            made("A", &[]),
            made("M", &[("k", "")]),
        ]]
    );
}

#[test]
fn elements_outside_an_occurrence_are_not_captured() {
    let groups = find_tags(b"<R><Before/><S><In/></S><After/></R>", "S");
    assert_eq!(groups, Ok(vec![vec![made("In", &[])]]));
}

#[test]
fn elements_deeper_inside_an_occurrence_are_not_captured() {
    let groups = find_tags(b"<S><X><Deep/></X><Direct/><Y><Z><Deeper/></Z></Y><Last/></S>", "S");
    assert_eq!(groups, Ok(vec![vec![made("Direct", &[]), made("Last", &[])]]));
}

#[test]
fn an_occurrence_inside_another_sets_the_depth_back_to_zero() {
    let groups = find_tags(b"<S><X><S><Inner/></S><Late/></X><Outer/></S>", "S").unwrap();
    assert_eq!(groups, vec![vec![made("Inner", &[])], vec![]]);
}

#[test]
fn an_occurrence_inside_another_starts_a_new_group() {
    let groups = find_tags(b"<S><First/><S><Second/></S><Third/></S>", "S").unwrap();
    assert_eq!(groups, vec![vec![made("Second", &[])], vec![]]);
}

#[test]
fn an_occurrence_left_open_gives_no_group() {
    assert_eq!(find_tags(b"<R><S><A/>", "S"), Ok(Vec::new()));
}

#[test]
fn values_stay_as_they_stand_in_the_document() {
    let groups = find_tags(b"<S><P Value=\"a &amp; b &#65;\"/></S>", "S").unwrap();
    assert_eq!(groups[0][0].attributes, vec![("Value".to_string(), "a &amp; b &#65;".to_string())]);
}

#[test]
fn text_in_utf8_is_decoded() {
    let groups = find_tags("<S><Grüße Wört=\"Käse\"/></S>".as_bytes(), "S").unwrap();
    assert_eq!(groups, vec![vec![made("Grüße", &[("Wört", "Käse")])]]);
}

#[test]
fn the_search_name_may_be_in_utf8() {
    let groups = find_tags("<Grüße><A/></Grüße>".as_bytes(), "Grüße").unwrap();
    assert_eq!(groups, vec![vec![made("A", &[])]]);
}

#[test]
fn a_malformed_document_gives_no_groups() {
    assert_eq!(find_tags(b"<S><A/></S></R>", "S"), Err(XmlError::MalformedXml));
    assert_eq!(find_tags(b"<S><A/></T>", "S"), Err(XmlError::MalformedXml));
}

#[test]
fn a_captured_value_without_quotes_is_malformed() {
    assert_eq!(find_tags(b"<S><A k=v/></S>", "S"), Err(XmlError::MalformedXml));
}

#[test]
fn a_captured_key_without_value_is_malformed() {
    assert_eq!(find_tags(b"<S><A k/></S>", "S"), Err(XmlError::MalformedXml));
}

#[test]
fn a_captured_key_may_occur_twice() {
    let groups = find_tags(b"<S><A k=\"1\" j=\"x\" k=\"2\"/></S>", "S").unwrap();
    assert_eq!(groups, vec![vec![made("A", &[("k", "1"), ("j", "x"), ("k", "2")])]]);
}

#[test]
fn a_bad_attribute_that_is_not_captured_does_no_harm() {
    let groups = find_tags(b"<R><A k=v/><S><X><B k/></X><C/></S></R>", "S");
    assert_eq!(groups, Ok(vec![vec![made("C", &[])]]));
}

#[test]
fn a_captured_value_that_is_not_text_cannot_be_decoded() {
    assert_eq!(find_tags(b"<S><A k=\"\xff\"/></S>", "S"), Err(XmlError::AttributeDecode));
}

#[test]
fn the_first_failure_is_the_one_reported() {
    assert_eq!(find_tags(b"<S><A k=\"\xff\"/></S></R>", "S"), Err(XmlError::AttributeDecode));
    assert_eq!(find_tags(b"<S><A k=v/><B k=\"\xff\"/></S>", "S"), Err(XmlError::MalformedXml));
}

#[test]
fn groups_of_events_need_no_parser() {
    let events = vec![
        XmlEvent::Start(element_of("S")),
        XmlEvent::Text(b"t".to_vec()),
        XmlEvent::Empty(element_of("A k=\"v\"")),
        XmlEvent::Other,
        XmlEvent::End(b"S".to_vec()),
        XmlEvent::Eof,
    ];
    assert_eq!(capture_groups(&events, "S"), Ok(vec![vec![made("A", &[("k", "v")])]]));
}

#[test]
fn every_closing_tag_of_the_name_gives_a_group() {
    let events = vec![
        XmlEvent::End(b"S".to_vec()),
        XmlEvent::Start(element_of("S")),
        XmlEvent::Empty(element_of("A")),
        XmlEvent::End(b"S".to_vec()),
        XmlEvent::End(b"S".to_vec()),
    ];
    assert_eq!(capture_groups(&events, "S"), Ok(vec![vec![], vec![made("A", &[])], vec![]]));
}

#[test]
fn a_closing_tag_too_many_makes_the_depth_negative() {
    let events = vec![
        XmlEvent::Start(element_of("S")),
        XmlEvent::End(b"X".to_vec()),
        XmlEvent::Empty(element_of("A")),
        XmlEvent::Start(element_of("X")),
        XmlEvent::Empty(element_of("B")),
        XmlEvent::End(b"S".to_vec()),
    ];
    assert_eq!(capture_groups(&events, "S"), Ok(vec![vec![made("B", &[])]]));
}

#[test]
fn groups_stop_at_the_end_of_the_stream() {
    let events = vec![
        XmlEvent::Start(element_of("S")),
        XmlEvent::End(b"S".to_vec()),
        XmlEvent::Eof,
        XmlEvent::Start(element_of("S")),
        XmlEvent::End(b"S".to_vec()),
    ];
    assert_eq!(capture_groups(&events, "S"), Ok(vec![vec![]]));
}

#[test]
fn groups_of_a_malformed_stream_are_lost() {
    let events = vec![
        XmlEvent::Start(element_of("S")),
        XmlEvent::End(b"S".to_vec()),
        XmlEvent::Malformed,
    ];
    assert_eq!(capture_groups(&events, "S"), Err(XmlError::MalformedXml));
}

#[test]
fn a_captured_element_becomes_a_tag() {
    let tag = capture_element(&element_of("PlugName Value=\"Reverb\" Kind='x'"));
    assert_eq!(tag, Ok(made("PlugName", &[("Value", "Reverb"), ("Kind", "x")])));
}

#[test]
fn white_space_around_the_equals_sign_is_allowed() {
    let tag = capture_element(&element_of("P a = \"1\"\tb\n=\n'2'  "));
    assert_eq!(tag, Ok(made("P", &[("a", "1"), ("b", "2")])));
}

#[test]
fn a_captured_name_must_be_text() {
    let element = Element { name: b"\xff".to_vec(), content: b"\xff k=\"v\"".to_vec() };
    assert_eq!(capture_element(&element), Err(XmlError::MalformedXml));
}

#[test]
fn a_captured_content_must_be_text() {
    let element = Element { name: b"A".to_vec(), content: b"A k=\"\xc3\x28\"".to_vec() };
    assert_eq!(capture_element(&element), Err(XmlError::AttributeDecode));
}

#[test]
fn a_name_longer_than_the_content_is_malformed() {
    let element = Element { name: b"LongName".to_vec(), content: b"Long".to_vec() };
    assert_eq!(capture_element(&element), Err(XmlError::MalformedXml));
}

#[test]
fn attributes_are_read_after_the_length_of_the_name() {
    let element = Element { name: b"AB".to_vec(), content: b"ABCD k=\"v\"".to_vec() };
    assert_eq!(capture_element(&element), Err(XmlError::MalformedXml));
    let element = Element { name: b"XY".to_vec(), content: b"AB k=\"v\"".to_vec() };
    assert_eq!(capture_element(&element), Ok(made("XY", &[("k", "v")])));
}

#[test]
fn a_tag_is_made_from_raw_parts() {
    let pairs = vec![(b"k".to_vec(), b"v".to_vec()), ("Wört".as_bytes().to_vec(), Vec::new())];
    assert_eq!(tag_from_parts(b"Name", &pairs), Ok(made("Name", &[("k", "v"), ("Wört", "")])));
    assert_eq!(tag_from_parts(b"", &Vec::new()), Ok(made("", &[])));
}

#[test]
fn raw_parts_must_be_text() {
    let good = vec![(b"k".to_vec(), b"v".to_vec())];
    let bad_key = vec![(b"k".to_vec(), b"v".to_vec()), (b"\xff".to_vec(), b"v".to_vec())];
    let bad_value = vec![(b"k".to_vec(), b"\xe2\x82".to_vec())];
    assert_eq!(tag_from_parts(b"\xff", &good), Err(XmlError::MalformedXml));
    assert_eq!(tag_from_parts(b"\xff", &bad_key), Err(XmlError::MalformedXml));
    assert_eq!(tag_from_parts(b"N", &bad_key), Err(XmlError::AttributeDecode));
    assert_eq!(tag_from_parts(b"N", &bad_value), Err(XmlError::AttributeDecode));
}

use als_xml::bytes::{append_bytes, bytes_equal};
use als_xml::error::XmlError;
use als_xml::text::{decode_text, is_text};

#[test]
fn each_failure_has_its_message() {
    assert_eq!(XmlError::Decompression.message(), "invalid compressed stream");
    assert_eq!(XmlError::MalformedXml.message(), "malformed XML");
    assert_eq!(XmlError::AttributeDecode.message(), "attribute is not valid text");
}

#[test]
fn byte_strings_are_equal_when_their_bytes_are() {
    assert!(bytes_equal(b"", b""));
    assert!(bytes_equal(b"abc", b"abc"));
    assert!(!bytes_equal(b"abc", b"abd"));
    assert!(!bytes_equal(b"abc", b"ab"));
    assert!(!bytes_equal(b"", b"a"));
}

#[test]
fn bytes_are_appended_at_the_end() {
    let mut out = b"ab".to_vec();
    append_bytes(&mut out, b"cd");
    assert_eq!(out, b"abcd".to_vec());
    append_bytes(&mut out, b"");
    assert_eq!(out, b"abcd".to_vec());
}

#[test]
fn valid_utf8_is_text() {
    assert_eq!(decode_text(b"plain"), Some("plain"));
    assert_eq!(decode_text("Grüße €".as_bytes()), Some("Grüße €"));
    assert_eq!(decode_text(b""), Some(""));
    assert!(is_text(b"plain"));
    assert!(is_text("Grüße €".as_bytes()));
}

#[test]
fn other_bytes_are_no_text() {
    assert_eq!(decode_text(b"\xff"), None);
    assert_eq!(decode_text(b"ab\xc3"), None);
    assert_eq!(decode_text(b"\xed\xa0\x80"), None);
    assert_eq!(decode_text(b"\xc0\xaf"), None);
    assert!(!is_text(b"\xff"));
    assert!(!is_text(b"ok\x80"));
}

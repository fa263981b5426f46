//! The failures the library reports.

use vstd::prelude::*;

verus! {

/// Why an operation on a project file gave up.
#[derive(Clone, Copy, Debug, PartialEq, Eq, Structural)]
pub enum XmlError {
    /// The compressed stream is invalid, corrupt or truncated.
    Decompression,
    /// The document is structurally invalid: the parser rejected it or an
    /// attribute of a captured element, a tag name is not valid UTF-8, or a
    /// closing tag does not close the innermost element that is open.
    MalformedXml,
    /// The content of a captured element, or a key or a value among its
    /// attributes, is not valid UTF-8.
    AttributeDecode,
}

impl XmlError {
    /// A short human-readable description of the failure.
    pub fn message(&self) -> (text: &'static str)
        ensures
            text@ == match *self {
                XmlError::Decompression => "invalid compressed stream"@,
                XmlError::MalformedXml => "malformed XML"@,
                XmlError::AttributeDecode => "attribute is not valid text"@,
            },
    {
        match self {
            XmlError::Decompression => "invalid compressed stream",
            XmlError::MalformedXml => "malformed XML",
            XmlError::AttributeDecode => "attribute is not valid text",
        }
    }
}

} // verus!

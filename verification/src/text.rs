//! Bytes as text.

use vstd::prelude::*;
use vstd::string::StringSliceAdditionalSpecFns;
use vstd::utf8::{decode_utf8, encode_utf8_decode_utf8, valid_utf8};

verus! {

#[verifier::external_type_specification]
#[verifier::external_body]
pub struct ExUtf8Error(std::str::Utf8Error);

/// `std::str::from_utf8`: the bytes read as text. The call succeeds exactly
/// on valid UTF-8, and the text it returns is made of the very same bytes.
#[verifier::external_body]
fn text_from_utf8(bytes: &[u8]) -> (r: Result<&str, std::str::Utf8Error>)
    ensures
        r is Ok <==> valid_utf8(bytes@),
        r is Ok ==> r->Ok_0.spec_bytes() == bytes@,
{
    std::str::from_utf8(bytes)
}

/// The text that `bytes` encode, or `None` where they are not valid UTF-8.
pub fn decode_text(bytes: &[u8]) -> (text: Option<&str>)
    ensures
        text is Some <==> valid_utf8(bytes@),
        text is Some ==> text->0@ == decode_utf8(bytes@) && text->0.spec_bytes() == bytes@,
{
    match text_from_utf8(bytes) {
        Ok(text) => {
            proof {
                encode_utf8_decode_utf8(text@);
            }
            Some(text)
        },
        Err(_) => None,
    }
}

/// Whether `bytes` are valid UTF-8.
pub fn is_text(bytes: &[u8]) -> (valid: bool)
    ensures
        valid == valid_utf8(bytes@),
{
    decode_text(bytes).is_some()
}

} // verus!

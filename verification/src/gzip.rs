//! Unpacking the compressed container.

use flate2::read::GzDecoder;
use std::io::Read;
use vstd::prelude::*;
use crate::error::XmlError;

verus! {

#[verifier::external_type_specification]
#[verifier::external_body]
pub struct ExIoError(std::io::Error);

/// The data held in the first member of a gzip stream, or `None` where the
/// stream is not valid: a bad header, corrupt compressed data, a checksum or
/// a length that does not agree, or an end that comes too early.
pub uninterp spec fn gzip_member(compressed: Seq<u8>) -> Option<Seq<u8>>;

/// `GzDecoder::new` over the bytes, read to its end: the decompressed data
/// of the first member, or the decoder's failure.
#[verifier::external_body]
fn gunzip(compressed: &[u8]) -> (r: Result<Vec<u8>, std::io::Error>)
    ensures
        match r {
            Ok(data) => gzip_member(compressed@) == Some(data@),
            Err(_) => gzip_member(compressed@) is None,
        },
{
    let mut data = Vec::new();
    GzDecoder::new(compressed).read_to_end(&mut data)?;
    Ok(data)
}

/// What unpacking a container gives.
pub open spec fn unpacked(compressed: Seq<u8>) -> Result<Seq<u8>, XmlError> {
    match gzip_member(compressed) {
        Some(data) => Ok(data),
        None => Err(XmlError::Decompression),
    }
}

/// Unpacks the bytes of a compressed project file into the document they
/// hold. Fails with `Decompression`, and gives no data, where the stream is
/// invalid, corrupt or cut short.
pub fn decode_als_data(compressed: &[u8]) -> (r: Result<Vec<u8>, XmlError>)
    ensures
        match r {
            Ok(data) => unpacked(compressed@) == Ok::<Seq<u8>, XmlError>(data@),
            Err(e) => unpacked(compressed@) == Err::<Seq<u8>, XmlError>(e),
        },
{
    match gunzip(compressed) {
        Ok(data) => Ok(data),
        Err(_) => Err(XmlError::Decompression),
    }
}

} // verus!

//! The byte-array decompression transform, a black box with a defined
//! failure mode: a stream that cannot be decoded, or one that decodes
//! to nothing, is reported as a failed transform.

use vstd::prelude::*;

use crate::error::Error;
use crate::Blob;

verus! {

/// What decompressing `bytes` yields: the decompressed bytes, or
/// nothing when the stream cannot be decoded. The outcome depends on
/// the input bytes alone.
pub uninterp spec fn inflate_of(bytes: Seq<u8>) -> Option<Seq<u8>>;

/// Relies on flate2's ZlibDecoder read to end: decompresses the whole
/// stream, whose outcome is a function of the input bytes alone, and
/// fails on a corrupt stream.
#[verifier::external_body]
fn inflate_raw(blob: &[u8]) -> (r: Result<Vec<u8>, Error>)
    ensures
        match r {
            Ok(v) => inflate_of(blob@) == Some(v@),
            Err(e) => inflate_of(blob@) is None && e == Error::TransformFailed,
        },
{
    let mut decoder = flate2::read::ZlibDecoder::new(blob);
    let mut out = Vec::new();
    match std::io::Read::read_to_end(&mut decoder, &mut out) {
        Ok(_) => Ok(out),
        Err(_) => Err(Error::TransformFailed),
    }
}

/// Decompresses a chunk payload, failing when the stream cannot be
/// decoded or decodes to nothing.
pub fn zlib_decompress(blob: &[u8]) -> (r: Result<Blob, Error>)
    ensures
        match r {
            Ok(v) => inflate_of(blob@) == Some(v@) && v@.len() > 0,
            Err(e) => e == Error::TransformFailed && (inflate_of(blob@) is None || inflate_of(
                blob@,
            ).unwrap().len() == 0),
        },
{
    match inflate_raw(blob) {
        Ok(v) => {
            if v.len() > 0 {
                Ok(v)
            } else {
                Err(Error::TransformFailed)
            }
        },
        Err(e) => Err(e),
    }
}

} // verus!

//! The bridge to the zlib decompressor. Inflating is not proved here: it is
//! the work of the `flate2` crate, and the contract below names its result.

use std::io::Read;
use vstd::prelude::*;

verus! {

/// What `flate2`'s zlib decoder yields when it reads `stream` to the end:
/// the decompressed bytes, or `None` when the decoder reports an error.
pub uninterp spec fn zlib_inflated(stream: Seq<u8>) -> Option<Seq<u8>>;

/// Reads a `flate2::read::ZlibDecoder` over `stream` to its end.
///
/// Trusted: the result is taken to be a function of the bytes of `stream`
/// alone, named `zlib_inflated`, memory permitting as for any `Vec`. Nothing
/// else is claimed of it: not which streams the decoder accepts, nor what it
/// does with bytes that follow a complete stream.
#[verifier::external_body]
pub(crate) fn zlib_inflate(stream: &[u8]) -> (r: Option<Vec<u8>>)
    ensures
        match r {
            Some(bytes) => zlib_inflated(stream@) == Some(bytes@),
            None => zlib_inflated(stream@) is None,
        },
{
    let mut decoder = flate2::read::ZlibDecoder::new(stream);
    let mut bytes: Vec<u8> = Vec::new();
    match decoder.read_to_end(&mut bytes) {
        Ok(_) => Some(bytes),
        Err(_) => None,
    }
}

} // verus!

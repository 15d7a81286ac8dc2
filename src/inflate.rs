//! Raw-deflate decompression, delegated to flate2.
use vstd::prelude::*;

verus! {

/// What a raw-deflate decoder makes of a whole byte run: the inflated bytes, or `None`
/// when the stream is corrupt or ends early.
pub uninterp spec fn inflated(b: Seq<u8>) -> Option<Seq<u8>>;

/// Relies on `flate2::read::DeflateDecoder` read to its end: it yields the inflated bytes
/// of a raw deflate stream, or fails on a corrupt or incomplete one; the outcome depends on
/// the input bytes alone.
#[verifier::external_body]
pub(crate) fn inflate(data: &[u8]) -> (r: Option<Vec<u8>>)
    ensures
        match r {
            Some(v) => inflated(data@) == Some(v@),
            None => inflated(data@) is None,
        },
{
    let mut out = Vec::new();
    let mut decoder = flate2::read::DeflateDecoder::new(data);
    match std::io::Read::read_to_end(&mut decoder, &mut out) {
        Ok(_) => Some(out),
        Err(_) => None,
    }
}

} // verus!

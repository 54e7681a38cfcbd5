//! zlib compression of frame bodies, done by the flate2 crate.
use std::io::Read;
use vstd::prelude::*;

verus! {

/// What zlib decompression of `b` yields, or `None` where `b` is not a
/// well-formed zlib stream.
pub uninterp spec fn inflated(b: Seq<u8>) -> Option<Seq<u8>>;

/// What zlib compression of `b` at flate2's default level yields, or `None`
/// where the compressor reports an error.
pub uninterp spec fn deflated(b: Seq<u8>) -> Option<Seq<u8>>;

/// Relies on `flate2::read::ZlibDecoder` read to its end: the bytes of the
/// zlib stream at the start of `b`, or an error where that stream is
/// malformed; the result depends on `b` alone.
#[verifier::external_body]
pub(crate) fn inflate(b: &[u8]) -> (r: Option<Vec<u8>>)
    ensures
        r is Some <==> inflated(b@) is Some,
        r is Some ==> r->0@ == inflated(b@)->0,
{
    let mut out: Vec<u8> = Vec::new();
    match flate2::read::ZlibDecoder::new(b).read_to_end(&mut out) {
        Ok(_) => Some(out),
        Err(_) => None,
    }
}

/// Relies on `flate2::read::ZlibEncoder` with `Compression::default()`, read
/// to its end: a zlib stream holding `b`; the result depends on `b` alone.
#[verifier::external_body]
pub(crate) fn deflate(b: &[u8]) -> (r: Option<Vec<u8>>)
    ensures
        r is Some <==> deflated(b@) is Some,
        r is Some ==> r->0@ == deflated(b@)->0,
{
    let mut out: Vec<u8> = Vec::new();
    match flate2::read::ZlibEncoder::new(b, flate2::Compression::default()).read_to_end(&mut out) {
        Ok(_) => Some(out),
        Err(_) => None,
    }
}

} // verus!

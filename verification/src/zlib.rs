//! Lossless byte-stream compression of raw frame samples.
//!
//! The algorithm is zlib, supplied by the `flate2` crate. Compressed output
//! bytes are not promised to be stable across runs or versions; the only fact
//! the library builds on is the round trip: what `deflate` produced, `inflate`
//! gives back exactly.

use std::io::Read;
use std::io::Write;
use vstd::prelude::*;

verus! {

/// What zlib decompression yields on a byte stream: `Some` of the full
/// decompressed bytes when the stream is a well-formed zlib stream, `None`
/// when it is corrupt. Decompression is a function of the input bytes alone.
pub uninterp spec fn zlib_inflate(b: Seq<u8>) -> Option<Seq<u8>>;

/// Relies on `flate2::write::ZlibEncoder`: compressing a byte stream yields a
/// well-formed zlib stream that decompresses back to exactly the input bytes.
/// Writing into a `Vec`-backed encoder and finishing it cannot fail.
#[verifier::external_body]
pub(crate) fn zlib_compress(data: &Vec<u8>) -> (r: Vec<u8>)
    ensures
        zlib_inflate(r@) == Some(data@),
{
    let mut enc = flate2::write::ZlibEncoder::new(Vec::new(), flate2::Compression::default());
    enc.write_all(data).unwrap();
    enc.finish().unwrap()
}

/// Relies on `flate2::read::ZlibDecoder`: reading it to the end yields the
/// full decompressed stream, or an error exactly when the zlib stream is
/// corrupt.
#[verifier::external_body]
pub(crate) fn zlib_decompress(data: &Vec<u8>) -> (r: Option<Vec<u8>>)
    ensures
        match r {
            Some(d) => zlib_inflate(data@) == Some(d@),
            None => zlib_inflate(data@) is None,
        },
{
    let mut out = Vec::new();
    let mut dec = flate2::read::ZlibDecoder::new(data.as_slice());
    match dec.read_to_end(&mut out) {
        Ok(_) => Some(out),
        Err(_) => None,
    }
}

} // verus!

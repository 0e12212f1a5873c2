//! The byte form of a frame's format tag.
//!
//! The container stores the tag as its UTF-8 bytes and reads it back with a
//! lossy decoding that never fails: invalid sequences become replacement
//! characters. On the bytes of an actual string the lossy decoding returns
//! the string itself, which is what the round trip of the container rests on.

use vstd::prelude::*;

verus! {

/// What the lossy UTF-8 decoding yields on a byte sequence. The decoding is a
/// function of the bytes alone and never fails.
pub uninterp spec fn lossy_decode(b: Seq<u8>) -> Seq<char>;

/// Relies on `str::as_bytes` (the UTF-8 encoding of the string) and on the
/// documented behaviour of `String::from_utf8_lossy`: on the valid UTF-8 that
/// `as_bytes` yields, the lossy decoding returns the original characters.
#[verifier::external_body]
pub(crate) fn string_bytes(s: &String) -> (r: Vec<u8>)
    ensures
        r@ == vstd::utf8::encode_utf8(s@),
        lossy_decode(r@) == s@,
{
    s.as_bytes().to_vec()
}

/// Relies on `String::from_utf8_lossy`: the decoding is a function of the
/// bytes alone and never fails.
#[verifier::external_body]
pub(crate) fn lossy_string(b: &Vec<u8>) -> (r: String)
    ensures
        r@ == lossy_decode(b@),
{
    String::from_utf8_lossy(b).into_owned()
}

} // verus!

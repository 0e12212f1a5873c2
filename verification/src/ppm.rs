//! The image codec: a decoder for the binary-triplet portable raster format.
//!
//! The input is a three-line text header — a `P6` tag line, a line with width
//! and height, a line with the maximum channel value — followed by raw sample
//! triplets with no separators. The sample bytes must be exactly
//! `width * height * 3` bytes: unlike the container's decompressor, this
//! codec rejects a mismatch instead of padding.
//!
//! `parse_ppm` is the specification of the format; `decode_ppm` proves that
//! it returns exactly what `parse_ppm` says.

use vstd::prelude::*;
use vstd::slice::slice_subrange;
use vstd::slice::slice_to_vec;

use crate::container::{reshape, reshape_pixels};
use crate::errors::DecodeError;
use crate::pixmap::{ImageModel, Pixmap};

verus! {

/// ASCII whitespace, as the header's token separators.
pub open spec fn is_ws(c: u8) -> bool {
    c == 32 || c == 9 || c == 10 || c == 13 || c == 11 || c == 12
}

/// An ASCII decimal digit.
pub open spec fn is_digit(c: u8) -> bool {
    48 <= c <= 57
}

/// The index of the first newline at or after `from`, or the length when
/// there is none.
pub open spec fn line_end(b: Seq<u8>, from: int) -> int
    decreases b.len() - from
        when 0 <= from <= b.len()
{
    if from >= b.len() {
        b.len() as int
    } else if b[from] == 10 {
        from
    } else {
        line_end(b, from + 1)
    }
}

/// The index of the first non-whitespace byte at or after `from`, or the
/// length when there is none.
pub open spec fn skip_ws(l: Seq<u8>, from: int) -> int
    decreases l.len() - from
        when 0 <= from <= l.len()
{
    if from >= l.len() {
        l.len() as int
    } else if is_ws(l[from]) {
        skip_ws(l, from + 1)
    } else {
        from
    }
}

/// The index of the first whitespace byte at or after `from`, or the length
/// when there is none: the end of the token that starts at `from`.
pub open spec fn token_end(l: Seq<u8>, from: int) -> int
    decreases l.len() - from
        when 0 <= from <= l.len()
{
    if from >= l.len() {
        l.len() as int
    } else if !is_ws(l[from]) {
        token_end(l, from + 1)
    } else {
        from
    }
}

/// A non-empty run of decimal digits.
pub open spec fn is_digits(t: Seq<u8>) -> bool {
    t.len() > 0 && forall|i: int| 0 <= i < t.len() ==> is_digit(#[trigger] t[i])
}

/// The value of a run of decimal digits.
pub open spec fn dec_value(t: Seq<u8>) -> int
    decreases t.len(),
{
    if t.len() == 0 {
        0
    } else {
        dec_value(t.drop_last()) * 10 + (t.last() - 48)
    }
}

/// The width and height read from the dimension line: the first two
/// whitespace-separated tokens, both of which must be decimal numbers that
/// fit in 32 bits. Anything after the second token is ignored.
pub open spec fn parse_dims(l: Seq<u8>) -> Option<(u32, u32)> {
    let s1 = skip_ws(l, 0);
    let e1 = token_end(l, s1);
    let t1 = l.subrange(s1, e1);
    let s2 = skip_ws(l, e1);
    let e2 = token_end(l, s2);
    let t2 = l.subrange(s2, e2);
    if is_digits(t1) && dec_value(t1) <= u32::MAX && is_digits(t2) && dec_value(t2) <= u32::MAX {
        Some((dec_value(t1) as u32, dec_value(t2) as u32))
    } else {
        None
    }
}

/// The maximum channel value read from its line: one decimal number that
/// fits in 32 bits, surrounded by nothing but whitespace.
pub open spec fn parse_max(l: Seq<u8>) -> Option<u32> {
    let s = skip_ws(l, 0);
    let e = token_end(l, s);
    let t = l.subrange(s, e);
    if is_digits(t) && dec_value(t) <= u32::MAX && skip_ws(l, e) == l.len() {
        Some(dec_value(t) as u32)
    } else {
        None
    }
}

/// The outcome of decoding an image.
pub enum PpmParse {
    Img(ImageModel),
    /// The input does not begin with the `P6` tag.
    BadFormat,
    /// The dimension line does not hold two unsigned integers.
    BadDims,
    /// The maximum-value line does not hold one unsigned integer.
    BadMax,
    /// The sample bytes are not exactly `width * height * 3` bytes.
    BadCount,
}

/// The specification of the image format: a `P6` tag line, a dimension line,
/// a maximum-value line, then exactly `width * height * 3` raw sample bytes.
pub open spec fn parse_ppm(b: Seq<u8>) -> PpmParse {
    let e1 = line_end(b, 0);
    if !(e1 >= 2 && b[0] == 80 && b[1] == 54) {
        PpmParse::BadFormat
    } else {
        let s2 = if e1 < b.len() {
            e1 + 1
        } else {
            b.len() as int
        };
        let e2 = line_end(b, s2);
        match parse_dims(b.subrange(s2, e2)) {
            None => PpmParse::BadDims,
            Some((w, h)) => {
                let s3 = if e2 < b.len() {
                    e2 + 1
                } else {
                    b.len() as int
                };
                let e3 = line_end(b, s3);
                match parse_max(b.subrange(s3, e3)) {
                    None => PpmParse::BadMax,
                    Some(m) => {
                        let s4 = if e3 < b.len() {
                            e3 + 1
                        } else {
                            b.len() as int
                        };
                        let rest = b.skip(s4);
                        if rest.len() != w * h * 3 {
                            PpmParse::BadCount
                        } else {
                            PpmParse::Img(
                                ImageModel {
                                    format: seq!['P', '6'],
                                    w,
                                    h,
                                    max_color_val: m,
                                    data: reshape(rest, (w * h) as nat),
                                },
                            )
                        }
                    },
                }
            },
        }
    }
}

/// The value of a digit run is nonnegative.
proof fn lemma_dec_nonneg(t: Seq<u8>)
    requires
        forall|i: int| 0 <= i < t.len() ==> is_digit(#[trigger] t[i]),
    ensures
        dec_value(t) >= 0,
    decreases t.len(),
{
    if t.len() > 0 {
        assert(forall|i: int|
            0 <= i < t.drop_last().len() ==> is_digit(#[trigger] t.drop_last()[i]));
        lemma_dec_nonneg(t.drop_last());
    }
}

/// The value of a digit run is at least the value of any of its prefixes.
proof fn lemma_dec_prefix_bound(t: Seq<u8>, j: int)
    requires
        0 <= j <= t.len(),
        forall|i: int| 0 <= i < t.len() ==> is_digit(#[trigger] t[i]),
    ensures
        dec_value(t.take(j)) <= dec_value(t),
    decreases t.len() - j,
{
    if j == t.len() {
        assert(t.take(j) =~= t);
    } else {
        lemma_dec_prefix_bound(t, j + 1);
        assert(t.take(j + 1).drop_last() =~= t.take(j));
        assert(t.take(j + 1).last() == t[j]);
        assert(forall|i: int| 0 <= i < t.take(j).len() ==> is_digit(#[trigger] t.take(j)[i]));
        lemma_dec_nonneg(t.take(j));
        assert(dec_value(t.take(j)) * 10 >= dec_value(t.take(j))) by (nonlinear_arith)
            requires
                dec_value(t.take(j)) >= 0,
        ;
    }
}

/// Finds the end of the line that starts at `from`.
fn find_line_end(b: &Vec<u8>, from: usize) -> (e: usize)
    requires
        from <= b@.len(),
    ensures
        from <= e <= b@.len(),
        e == line_end(b@, from as int),
{
    let mut i = from;
    while i < b.len()
        invariant
            from <= i <= b@.len(),
            line_end(b@, from as int) == line_end(b@, i as int),
        decreases b@.len() - i,
    {
        if b[i] == 10 {
            return i;
        }
        i = i + 1;
    }
    i
}

/// Skips whitespace from `from` within the line `[lo, hi)`.
fn scan_ws(b: &Vec<u8>, lo: usize, hi: usize, from: usize) -> (r: usize)
    requires
        lo <= from <= hi,
        hi <= b@.len(),
    ensures
        from <= r <= hi,
        r - lo == skip_ws(b@.subrange(lo as int, hi as int), from - lo),
{
    let ghost l = b@.subrange(lo as int, hi as int);
    let mut i = from;
    while i < hi
        invariant
            from <= i <= hi,
            lo <= from,
            hi <= b@.len(),
            l == b@.subrange(lo as int, hi as int),
            skip_ws(l, from - lo) == skip_ws(l, i - lo),
        decreases hi - i,
    {
        let c = b[i];
        proof {
            assert(l[i - lo] == b@[i as int]);
        }
        if !(c == 32 || c == 9 || c == 10 || c == 13 || c == 11 || c == 12) {
            return i;
        }
        i = i + 1;
    }
    i
}

/// Finds the end of the token that starts at `from` within the line `[lo, hi)`.
fn scan_token(b: &Vec<u8>, lo: usize, hi: usize, from: usize) -> (r: usize)
    requires
        lo <= from <= hi,
        hi <= b@.len(),
    ensures
        from <= r <= hi,
        r - lo == token_end(b@.subrange(lo as int, hi as int), from - lo),
{
    let ghost l = b@.subrange(lo as int, hi as int);
    let mut i = from;
    while i < hi
        invariant
            from <= i <= hi,
            lo <= from,
            hi <= b@.len(),
            l == b@.subrange(lo as int, hi as int),
            token_end(l, from - lo) == token_end(l, i - lo),
        decreases hi - i,
    {
        let c = b[i];
        proof {
            assert(l[i - lo] == b@[i as int]);
        }
        if c == 32 || c == 9 || c == 10 || c == 13 || c == 11 || c == 12 {
            return i;
        }
        i = i + 1;
    }
    i
}

/// Parses the decimal token spanning exactly `[lo, hi)`, or reports that it
/// is not a number that fits in 32 bits.
fn parse_u32_token(b: &Vec<u8>, lo: usize, hi: usize) -> (r: Option<u32>)
    requires
        lo <= hi <= b@.len(),
    ensures
        ({
            let t = b@.subrange(lo as int, hi as int);
            match r {
                Some(v) => is_digits(t) && v == dec_value(t),
                None => !(is_digits(t) && dec_value(t) <= u32::MAX),
            }
        }),
{
    let ghost t = b@.subrange(lo as int, hi as int);
    if lo == hi {
        return None;
    }
    let mut acc: u32 = 0;
    let mut i = lo;
    while i < hi
        invariant
            lo <= i <= hi,
            hi <= b@.len(),
            lo < hi,
            t == b@.subrange(lo as int, hi as int),
            forall|j: int| 0 <= j < i - lo ==> is_digit(#[trigger] t[j]),
            acc == dec_value(t.take(i - lo)),
        decreases hi - i,
    {
        let c = b[i];
        proof {
            assert(t[i - lo] == b@[i as int]);
        }
        if c < 48 || c > 57 {
            return None;
        }
        let d = (c - 48) as u32;
        if acc > (u32::MAX - d) / 10 {
            proof {
                let j = i - lo;
                assert(t.take(j + 1).drop_last() =~= t.take(j));
                assert(t.take(j + 1).last() == t[j]);
                assert(acc * 10 + d > u32::MAX);
                if is_digits(t) && dec_value(t) <= u32::MAX {
                    lemma_dec_prefix_bound(t, j + 1);
                }
            }
            return None;
        }
        acc = acc * 10 + d;
        i = i + 1;
        proof {
            let j = i - lo;
            assert(t.take(j).drop_last() =~= t.take(j - 1));
            assert(t.take(j).last() == t[j - 1]);
        }
    }
    proof {
        assert(t.take(t.len() as int) =~= t);
    }
    Some(acc)
}

/// Decodes one image from a byte stream: the three-line header, then exactly
/// `width * height * 3` raw sample bytes. Returns exactly what `parse_ppm`
/// says of the bytes, each malformed part with its own error.
pub fn decode_ppm(bytes: &Vec<u8>) -> (r: Result<Pixmap, DecodeError>)
    ensures
        match r {
            Ok(img) => parse_ppm(bytes@) == PpmParse::Img(img@) && img.wf(),
            Err(e) => {
                ||| (e == DecodeError::UnsupportedImageFormat && parse_ppm(bytes@)
                    == PpmParse::BadFormat)
                ||| (e == DecodeError::MalformedDimensions && parse_ppm(bytes@)
                    == PpmParse::BadDims)
                ||| (e == DecodeError::MalformedMaxValue && parse_ppm(bytes@)
                    == PpmParse::BadMax)
                ||| (e == DecodeError::SampleCountMismatch && parse_ppm(bytes@)
                    == PpmParse::BadCount)
            },
        },
{
    let e1 = find_line_end(bytes, 0);
    if e1 < 2 {
        return Err(DecodeError::UnsupportedImageFormat);
    }
    if !(bytes[0] == 80 && bytes[1] == 54) {
        return Err(DecodeError::UnsupportedImageFormat);
    }
    let s2 = if e1 < bytes.len() {
        e1 + 1
    } else {
        bytes.len()
    };
    let e2 = find_line_end(bytes, s2);
    let ghost l2 = bytes@.subrange(s2 as int, e2 as int);
    let t1s = scan_ws(bytes, s2, e2, s2);
    let t1e = scan_token(bytes, s2, e2, t1s);
    let t2s = scan_ws(bytes, s2, e2, t1e);
    let t2e = scan_token(bytes, s2, e2, t2s);
    proof {
        assert(l2.subrange(t1s - s2, t1e - s2) =~= bytes@.subrange(t1s as int, t1e as int));
        assert(l2.subrange(t2s - s2, t2e - s2) =~= bytes@.subrange(t2s as int, t2e as int));
    }
    let v1 = parse_u32_token(bytes, t1s, t1e);
    let v2 = parse_u32_token(bytes, t2s, t2e);
    let (w, h) = match (v1, v2) {
        (Some(w), Some(h)) => (w, h),
        _ => {
            return Err(DecodeError::MalformedDimensions);
        },
    };
    let s3 = if e2 < bytes.len() {
        e2 + 1
    } else {
        bytes.len()
    };
    let e3 = find_line_end(bytes, s3);
    let ghost l3 = bytes@.subrange(s3 as int, e3 as int);
    let t3s = scan_ws(bytes, s3, e3, s3);
    let t3e = scan_token(bytes, s3, e3, t3s);
    let after = scan_ws(bytes, s3, e3, t3e);
    proof {
        assert(l3.subrange(t3s - s3, t3e - s3) =~= bytes@.subrange(t3s as int, t3e as int));
    }
    let v3 = parse_u32_token(bytes, t3s, t3e);
    let m = match v3 {
        Some(mv) => {
            if after < e3 {
                return Err(DecodeError::MalformedMaxValue);
            }
            mv
        },
        None => {
            return Err(DecodeError::MalformedMaxValue);
        },
    };
    let s4 = if e3 < bytes.len() {
        e3 + 1
    } else {
        bytes.len()
    };
    let rest_len = bytes.len() - s4;
    proof {
        assert((w as int) * (h as int) < 0x10000000000000000) by (nonlinear_arith)
            requires
                w < 0x100000000,
                h < 0x100000000,
        ;
    }
    let need: u128 = (w as u128) * (h as u128) * 3;
    if (rest_len as u128) != need {
        return Err(DecodeError::SampleCountMismatch);
    }
    let raw = slice_to_vec(slice_subrange(bytes.as_slice(), s4, bytes.len()));
    proof {
        assert(raw@ =~= bytes@.skip(s4 as int));
        assert(((w as int) * (h as int) * 3) / 3 == (w as int) * (h as int))
            by (nonlinear_arith);
        assert(3 * ((rest_len / 3) as int) <= rest_len);
    }
    let n = rest_len / 3;
    let data = reshape_pixels(&raw, n);
    let px = Pixmap { format: "P6".to_owned(), w, h, max_color_val: m, data };
    proof {
        reveal_strlit("P6");
        assert("P6"@ =~= seq!['P', '6']);
        assert(px.wf());
        assert(parse_ppm(bytes@) == PpmParse::Img(px@));
    }
    Ok(px)
}

} // verus!

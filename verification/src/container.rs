//! The binary container holding an ordered sequence of frames.
//!
//! Layout, all integers little-endian unsigned 32-bit:
//! a frame count, then per frame: the byte length of the format tag, the tag
//! bytes, width, height, maximum channel value, the compressed byte length,
//! and the zlib-compressed sample bytes (three per pixel, row-major).
//!
//! `parse_container` is the specification of the layout; `serialize` proves
//! that its output parses back to exactly its input frames, and `deserialize`
//! proves that it returns exactly what `parse_container` says.

use vstd::bytes::lemma_auto_spec_u32_to_from_le_bytes;
use vstd::bytes::spec_u32_from_le_bytes;
use vstd::bytes::spec_u32_to_le_bytes;
use vstd::bytes::u32_from_le_bytes;
use vstd::bytes::u32_to_le_bytes;
use vstd::prelude::*;
use vstd::slice::slice_subrange;
use vstd::slice::slice_to_vec;
use vstd::utf8::encode_utf8;

use crate::errors::DecodeError;
use crate::pixmap::{ImageModel, Pixmap, RGB};
use crate::strbytes::{lossy_decode, lossy_string, string_bytes};
use crate::zlib::{zlib_compress, zlib_decompress, zlib_inflate};

verus! {

/// Channel `j` of a pixel, in storage order red, green, blue.
pub open spec fn channel(p: RGB, j: int) -> u8 {
    if j == 0 {
        p.r
    } else if j == 1 {
        p.g
    } else {
        p.b
    }
}

/// The samples of an image flattened to bytes, three per pixel, row-major.
pub open spec fn flat(data: Seq<RGB>) -> Seq<u8> {
    Seq::new((3 * data.len()) as nat, |i: int| channel(data[i / 3], i % 3))
}

/// A byte of a payload, counting bytes past the end as zero.
pub open spec fn byte_or_zero(b: Seq<u8>, i: int) -> u8 {
    if 0 <= i < b.len() {
        b[i]
    } else {
        0
    }
}

/// `n` pixels reshaped from a flat byte sequence. A short payload pads the
/// tail with black pixels; excess bytes are dropped.
pub open spec fn reshape(raw: Seq<u8>, n: nat) -> Seq<RGB> {
    Seq::new(
        n,
        |i: int|
            RGB {
                r: byte_or_zero(raw, 3 * i),
                g: byte_or_zero(raw, 3 * i + 1),
                b: byte_or_zero(raw, 3 * i + 2),
            },
    )
}

/// The outcome of parsing one frame record from the front of a byte sequence:
/// the frame and the remaining bytes, or the failure that parsing runs into.
pub enum RecordParse {
    Rec(ImageModel, Seq<u8>),
    /// The bytes end before a declared length is satisfied.
    Truncated,
    /// The declared sample byte count does not fit in memory.
    Oversized,
    /// The compressed payload cannot be decoded at all.
    Corrupt,
}

/// The outcome of parsing a whole container.
pub enum ContainerParse {
    Frames(Seq<ImageModel>),
    Truncated,
    Oversized,
    Corrupt,
}

/// Parses one frame record from the front of `b`.
pub open spec fn parse_record(b: Seq<u8>) -> RecordParse {
    if b.len() < 4 {
        RecordParse::Truncated
    } else {
        let taglen = spec_u32_from_le_bytes(b.take(4)) as int;
        if b.len() < 4 + taglen {
            RecordParse::Truncated
        } else {
            let tag = b.subrange(4, 4 + taglen);
            let c = b.skip(4 + taglen);
            if c.len() < 16 {
                RecordParse::Truncated
            } else {
                let w = spec_u32_from_le_bytes(c.subrange(0, 4));
                let h = spec_u32_from_le_bytes(c.subrange(4, 8));
                let m = spec_u32_from_le_bytes(c.subrange(8, 12));
                let clen = spec_u32_from_le_bytes(c.subrange(12, 16)) as int;
                if c.len() < 16 + clen {
                    RecordParse::Truncated
                } else {
                    let payload = c.subrange(16, 16 + clen);
                    let rest = c.skip(16 + clen);
                    if w * h * 3 > usize::MAX {
                        RecordParse::Oversized
                    } else {
                        match zlib_inflate(payload) {
                            Option::None => RecordParse::Corrupt,
                            Option::Some(raw) => RecordParse::Rec(
                                ImageModel {
                                    format: lossy_decode(tag),
                                    w,
                                    h,
                                    max_color_val: m,
                                    data: reshape(raw, (w * h) as nat),
                                },
                                rest,
                            ),
                        }
                    }
                }
            }
        }
    }
}

/// Parses `n` frame records from the front of `b`. Bytes after the last
/// record are ignored.
pub open spec fn parse_frames(b: Seq<u8>, n: nat) -> ContainerParse
    decreases n,
{
    if n == 0 {
        ContainerParse::Frames(Seq::empty())
    } else {
        match parse_record(b) {
            RecordParse::Rec(img, rest) => match parse_frames(rest, (n - 1) as nat) {
                ContainerParse::Frames(imgs) => ContainerParse::Frames(seq![img] + imgs),
                e => e,
            },
            RecordParse::Truncated => ContainerParse::Truncated,
            RecordParse::Oversized => ContainerParse::Oversized,
            RecordParse::Corrupt => ContainerParse::Corrupt,
        }
    }
}

/// The specification of the container layout: the frame count, then that many
/// records.
pub open spec fn parse_container(b: Seq<u8>) -> ContainerParse {
    if b.len() < 4 {
        ContainerParse::Truncated
    } else {
        parse_frames(b.skip(4), spec_u32_from_le_bytes(b.take(4)) as nat)
    }
}

/// The views of a sequence of images.
pub open spec fn views_of(frames: Seq<Pixmap>) -> Seq<ImageModel> {
    frames.map_values(|p: Pixmap| p@)
}

/// Reshaping the flattened samples of an image gives back exactly its samples.
pub proof fn lemma_reshape_flat(d: Seq<RGB>)
    ensures
        reshape(flat(d), d.len()) == d,
{
    assert forall|i: int| 0 <= i < d.len() implies reshape(flat(d), d.len())[i] == d[i] by {
        assert((3 * i) / 3 == i && (3 * i) % 3 == 0) by (nonlinear_arith);
        assert((3 * i + 1) / 3 == i && (3 * i + 1) % 3 == 1) by (nonlinear_arith);
        assert((3 * i + 2) / 3 == i && (3 * i + 2) % 3 == 2) by (nonlinear_arith);
    }
    assert(reshape(flat(d), d.len()) =~= d);
}

/// Padding: a reshaped frame always has exactly `n` pixels, and every pixel
/// whose bytes lie past the end of the payload is black.
pub proof fn lemma_padding(raw: Seq<u8>, n: nat)
    ensures
        reshape(raw, n).len() == n,
        forall|i: int|
            0 <= i < n && raw.len() <= 3 * i ==> reshape(raw, n)[i] == (RGB { r: 0, g: 0, b: 0 }),
{
}

/// Compresses the samples of one frame: three bytes per pixel, row-major,
/// then zlib.
pub fn compress_data(data: &Vec<RGB>) -> (r: Vec<u8>)
    requires
        3 * data@.len() <= usize::MAX,
    ensures
        zlib_inflate(r@) == Some(flat(data@)),
{
    let mut bytes: Vec<u8> = Vec::new();
    let mut i: usize = 0;
    while i < data.len()
        invariant
            i <= data@.len(),
            3 * data@.len() <= usize::MAX,
            bytes@ == flat(data@).take(3 * i),
        decreases data@.len() - i,
    {
        let p = data[i];
        bytes.push(p.r);
        bytes.push(p.g);
        bytes.push(p.b);
        i = i + 1;
        proof {
            let k: int = i - 1;
            assert((3 * k) / 3 == k && (3 * k) % 3 == 0) by (nonlinear_arith);
            assert((3 * k + 1) / 3 == k && (3 * k + 1) % 3 == 1) by (nonlinear_arith);
            assert((3 * k + 2) / 3 == k && (3 * k + 2) % 3 == 2) by (nonlinear_arith);
            assert(bytes@ =~= flat(data@).take(3 * i as int));
        }
    }
    proof {
        assert(flat(data@).take(3 * data@.len() as int) =~= flat(data@));
    }
    zlib_compress(&bytes)
}

/// Decompresses one frame's payload and reshapes it into `original_size / 3`
/// pixels, padding the tail with black pixels when the payload is short and
/// dropping excess bytes, per the container's leniency policy. Fails exactly
/// when the zlib stream is corrupt.
pub fn decompress_data(compressed: &Vec<u8>, original_size: usize) -> (r: Result<
    Vec<RGB>,
    DecodeError,
>)
    ensures
        match r {
            Ok(v) => {
                &&& zlib_inflate(compressed@) matches Some(raw)
                &&& v@ == reshape(
                    zlib_inflate(compressed@).unwrap(),
                    (original_size / 3) as nat,
                )
            },
            Err(e) => {
                &&& e == DecodeError::CorruptCompressedData
                &&& zlib_inflate(compressed@) is None
            },
        },
{
    let raw = match zlib_decompress(compressed) {
        Some(d) => d,
        None => {
            return Err(DecodeError::CorruptCompressedData);
        },
    };
    let n = original_size / 3;
    Ok(reshape_pixels(&raw, n))
}

/// Reshapes a flat byte sequence into `n` pixels of three bytes each, black
/// past the end of the bytes, excess bytes dropped.
pub fn reshape_pixels(raw: &Vec<u8>, n: usize) -> (r: Vec<RGB>)
    requires
        3 * n <= usize::MAX,
    ensures
        r@ == reshape(raw@, n as nat),
{
    let mut out: Vec<RGB> = Vec::new();
    let mut i: usize = 0;
    while i < n
        invariant
            i <= n,
            3 * n <= usize::MAX,
            out@ == reshape(raw@, n as nat).take(i as int),
        decreases n - i,
    {
        let base = 3 * i;
        let r = if base < raw.len() {
            raw[base]
        } else {
            0
        };
        let g = if base + 1 < raw.len() {
            raw[base + 1]
        } else {
            0
        };
        let b = if base + 2 < raw.len() {
            raw[base + 2]
        } else {
            0
        };
        out.push(RGB { r, g, b });
        i = i + 1;
        proof {
            assert(out@ =~= reshape(raw@, n as nat).take(i as int));
        }
    }
    proof {
        assert(reshape(raw@, n as nat).take(n as int) =~= reshape(raw@, n as nat));
    }
    out
}

/// What the serializer establishes about one frame record it has written:
/// the size fields fit, the payload decompresses to the frame's samples, and
/// the tag bytes decode back to the frame's format.
pub open spec fn record_ok(img: ImageModel, tag: Seq<u8>, payload: Seq<u8>) -> bool {
    &&& tag.len() <= u32::MAX
    &&& payload.len() <= u32::MAX
    &&& zlib_inflate(payload) == Some(flat(img.data))
    &&& lossy_decode(tag) == img.format
    &&& img.data.len() == img.w * img.h
    &&& img.w * img.h * 3 <= usize::MAX
}

/// The byte layout of one frame record.
pub open spec fn record_bytes(img: ImageModel, tag: Seq<u8>, payload: Seq<u8>) -> Seq<u8> {
    spec_u32_to_le_bytes(tag.len() as u32) + tag + spec_u32_to_le_bytes(img.w)
        + spec_u32_to_le_bytes(img.h) + spec_u32_to_le_bytes(img.max_color_val)
        + spec_u32_to_le_bytes(payload.len() as u32) + payload
}

/// The records of a frame sequence laid out one after another.
pub open spec fn concat_records(
    imgs: Seq<ImageModel>,
    tags: Seq<Seq<u8>>,
    payloads: Seq<Seq<u8>>,
) -> Seq<u8>
    decreases imgs.len(),
{
    if imgs.len() == 0 {
        Seq::empty()
    } else {
        record_bytes(imgs[0], tags[0], payloads[0]) + concat_records(
            imgs.skip(1),
            tags.skip(1),
            payloads.skip(1),
        )
    }
}

/// Parsing a well-formed record from the front of a stream yields exactly the
/// frame it was written from, and leaves exactly the trailing bytes.
proof fn lemma_parse_record_concat(
    img: ImageModel,
    tag: Seq<u8>,
    payload: Seq<u8>,
    rest: Seq<u8>,
)
    requires
        record_ok(img, tag, payload),
    ensures
        parse_record(record_bytes(img, tag, payload) + rest) == RecordParse::Rec(img, rest),
{
    lemma_auto_spec_u32_to_from_le_bytes();
    let tl = tag.len() as int;
    let pl = payload.len() as int;
    let b = record_bytes(img, tag, payload) + rest;
    assert(b.len() == 20 + tl + pl + rest.len());
    assert(b.take(4) =~= spec_u32_to_le_bytes(tag.len() as u32));
    assert(spec_u32_from_le_bytes(b.take(4)) as int == tl);
    assert(b.subrange(4, 4 + tl) =~= tag);
    let c = b.skip(4 + tl);
    assert(c.len() == 16 + pl + rest.len());
    assert(c.subrange(0, 4) =~= spec_u32_to_le_bytes(img.w));
    assert(c.subrange(4, 8) =~= spec_u32_to_le_bytes(img.h));
    assert(c.subrange(8, 12) =~= spec_u32_to_le_bytes(img.max_color_val));
    assert(c.subrange(12, 16) =~= spec_u32_to_le_bytes(payload.len() as u32));
    assert(c.subrange(16, 16 + pl) =~= payload);
    assert(c.skip(16 + pl) =~= rest);
    lemma_reshape_flat(img.data);
}

/// Appending one record to a laid-out sequence of records.
proof fn lemma_concat_records_snoc(
    imgs: Seq<ImageModel>,
    tags: Seq<Seq<u8>>,
    payloads: Seq<Seq<u8>>,
    img: ImageModel,
    tag: Seq<u8>,
    payload: Seq<u8>,
)
    requires
        tags.len() == imgs.len(),
        payloads.len() == imgs.len(),
    ensures
        concat_records(imgs.push(img), tags.push(tag), payloads.push(payload)) == concat_records(
            imgs,
            tags,
            payloads,
        ) + record_bytes(img, tag, payload),
    decreases imgs.len(),
{
    if imgs.len() == 0 {
        assert(imgs.push(img)[0] == img);
        assert(tags.push(tag)[0] == tag);
        assert(payloads.push(payload)[0] == payload);
        assert(imgs.push(img).skip(1) =~= Seq::<ImageModel>::empty());
        assert(tags.push(tag).skip(1) =~= Seq::<Seq<u8>>::empty());
        assert(payloads.push(payload).skip(1) =~= Seq::<Seq<u8>>::empty());
        assert(concat_records(imgs.push(img), tags.push(tag), payloads.push(payload))
            == record_bytes(img, tag, payload) + concat_records(
                Seq::<ImageModel>::empty(),
                Seq::<Seq<u8>>::empty(),
                Seq::<Seq<u8>>::empty(),
            ));
        assert(concat_records(imgs.push(img), tags.push(tag), payloads.push(payload))
            =~= concat_records(imgs, tags, payloads) + record_bytes(img, tag, payload));
    } else {
        assert(imgs.push(img)[0] == imgs[0]);
        assert(tags.push(tag)[0] == tags[0]);
        assert(payloads.push(payload)[0] == payloads[0]);
        assert(imgs.push(img).skip(1) =~= imgs.skip(1).push(img));
        assert(tags.push(tag).skip(1) =~= tags.skip(1).push(tag));
        assert(payloads.push(payload).skip(1) =~= payloads.skip(1).push(payload));
        lemma_concat_records_snoc(
            imgs.skip(1),
            tags.skip(1),
            payloads.skip(1),
            img,
            tag,
            payload,
        );
        let head = record_bytes(imgs[0], tags[0], payloads[0]);
        let tail = concat_records(imgs.skip(1), tags.skip(1), payloads.skip(1));
        let rb = record_bytes(img, tag, payload);
        assert(concat_records(imgs.push(img), tags.push(tag), payloads.push(payload)) == head + (
        tail + rb));
        assert(head + (tail + rb) =~= (head + tail) + rb);
    }
}

/// Parsing a laid-out sequence of well-formed records yields exactly the
/// frames they were written from.
proof fn lemma_parse_concat(imgs: Seq<ImageModel>, tags: Seq<Seq<u8>>, payloads: Seq<Seq<u8>>)
    requires
        tags.len() == imgs.len(),
        payloads.len() == imgs.len(),
        forall|k: int|
            0 <= k < imgs.len() ==> record_ok(#[trigger] imgs[k], tags[k], payloads[k]),
    ensures
        parse_frames(concat_records(imgs, tags, payloads), imgs.len()) == ContainerParse::Frames(
            imgs,
        ),
    decreases imgs.len(),
{
    if imgs.len() == 0 {
        assert(imgs =~= Seq::<ImageModel>::empty());
    } else {
        let ti = imgs.skip(1);
        let tt = tags.skip(1);
        let tp = payloads.skip(1);
        lemma_parse_record_concat(imgs[0], tags[0], payloads[0], concat_records(ti, tt, tp));
        assert forall|k: int| 0 <= k < ti.len() implies record_ok(
            #[trigger] ti[k],
            tt[k],
            tp[k],
        ) by {
            assert(ti[k] == imgs[k + 1]);
            assert(tt[k] == tags[k + 1]);
            assert(tp[k] == payloads[k + 1]);
        }
        lemma_parse_concat(ti, tt, tp);
        assert(seq![imgs[0]] + ti =~= imgs);
    }
}

/// Appends the little-endian bytes of a 32-bit value.
fn push_u32_le(out: &mut Vec<u8>, x: u32)
    ensures
        final(out)@ == old(out)@ + spec_u32_to_le_bytes(x),
{
    let mut b = u32_to_le_bytes(x);
    out.append(&mut b);
}

/// The UTF-8 bytes of every frame's format tag, in frame order.
pub open spec fn tag_bytes_of(frames: Seq<Pixmap>) -> Seq<Seq<u8>> {
    frames.map_values(|p: Pixmap| encode_utf8(p@.format))
}

/// What holds of the compressed payloads a successful serializer run wrote:
/// one per frame, each fitting the unsigned 32-bit length field and
/// decompressing to exactly that frame's flattened samples.
pub open spec fn payloads_ok(frames: Seq<Pixmap>, payloads: Seq<Seq<u8>>) -> bool {
    &&& payloads.len() == frames.len()
    &&& forall|k: int|
        0 <= k < frames.len() ==> (#[trigger] payloads[k]).len() <= u32::MAX && zlib_inflate(
            payloads[k],
        ) == Some(flat(frames[k]@.data))
}

/// The exact byte layout of a serialized container: the little-endian frame
/// count, then every frame's record in order — tag byte length, tag bytes,
/// width, height, maximum channel value, payload byte length, payload — and
/// nothing after the last record.
pub open spec fn container_bytes(frames: Seq<Pixmap>, payloads: Seq<Seq<u8>>) -> Seq<u8> {
    spec_u32_to_le_bytes(frames.len() as u32) + concat_records(
        views_of(frames),
        tag_bytes_of(frames),
        payloads,
    )
}

/// Whether some frame's format tag has UTF-8 bytes that do not fit the
/// container's unsigned 32-bit length field.
pub open spec fn some_tag_too_large(frames: Seq<Pixmap>) -> bool {
    exists|k: int|
        0 <= k < frames.len() && encode_utf8((#[trigger] frames[k])@.format).len() > u32::MAX
}

/// Whether some frame's samples have a zlib compression larger than the
/// container's unsigned 32-bit length field. The witness is the payload that
/// the failing serializer run actually produced.
pub open spec fn some_payload_too_large(frames: Seq<Pixmap>) -> bool {
    exists|k: int, p: Seq<u8>|
        #![trigger zlib_inflate(p), frames[k]]
        0 <= k < frames.len() && zlib_inflate(p) == Some(flat(frames[k]@.data)) && p.len()
            > u32::MAX
}

/// Serializes a frame sequence into one container byte stream.
///
/// On success the output is exactly `container_bytes`: the frame count, then
/// per frame its record, with the tag stored as the format's UTF-8 bytes and
/// the payload some zlib stream that decompresses to exactly the frame's
/// flattened samples — and it therefore parses back, per `parse_container`,
/// to exactly the input frames: the round trip of the container format.
///
/// Fails, always with `FrameTooLarge`, only when a size genuinely overflows a
/// 32-bit length field: the frame count (which conversely forces failure), a
/// tag's UTF-8 bytes, or the compressed payload that this run produced. A
/// sequence with no frames always succeeds; since the compressed size of a
/// frame's samples is decided by the compressor, success with frames is owed
/// only payload by payload.
pub fn serialize(frames: &Vec<Pixmap>) -> (r: Result<Vec<u8>, DecodeError>)
    requires
        forall|k: int| 0 <= k < frames@.len() ==> (#[trigger] frames@[k]).wf(),
    ensures
        match r {
            Ok(out) => {
                &&& parse_container(out@) == ContainerParse::Frames(views_of(frames@))
                &&& exists|payloads: Seq<Seq<u8>>|
                    #[trigger] payloads_ok(frames@, payloads) && out@ == container_bytes(
                        frames@,
                        payloads,
                    )
                &&& frames@.len() <= u32::MAX
                &&& forall|k: int|
                    0 <= k < frames@.len() ==> encode_utf8(
                        (#[trigger] frames@[k])@.format,
                    ).len() <= u32::MAX
            },
            Err(e) => {
                &&& e == DecodeError::FrameTooLarge
                &&& (frames@.len() > u32::MAX || some_tag_too_large(frames@)
                    || some_payload_too_large(frames@))
            },
        },
        frames@.len() == 0 ==> r is Ok,
        frames@.len() > u32::MAX ==> r is Err,
{
    if frames.len() > u32::MAX as usize {
        return Err(DecodeError::FrameTooLarge);
    }
    let count: u32 = frames.len() as u32;
    let mut out: Vec<u8> = Vec::new();
    push_u32_le(&mut out, count);
    let ghost mut models = Seq::<ImageModel>::empty();
    let ghost mut tags = Seq::<Seq<u8>>::empty();
    let ghost mut payloads = Seq::<Seq<u8>>::empty();
    let mut i: usize = 0;
    while i < frames.len()
        invariant
            i <= frames@.len(),
            frames@.len() <= u32::MAX,
            count == frames@.len() as u32,
            forall|k: int| 0 <= k < frames@.len() ==> (#[trigger] frames@[k]).wf(),
            models == views_of(frames@.take(i as int)),
            tags == tag_bytes_of(frames@.take(i as int)),
            models.len() == i,
            tags.len() == i,
            payloads.len() == i,
            forall|k: int|
                0 <= k < i ==> record_ok(#[trigger] models[k], tags[k], payloads[k]),
            out@ == spec_u32_to_le_bytes(count) + concat_records(models, tags, payloads),
        decreases frames@.len() - i,
    {
        let img = &frames[i];
        let tag = string_bytes(&img.format);
        if tag.len() > u32::MAX as usize {
            proof {
                assert(tag@ == encode_utf8(frames@[i as int]@.format));
                assert(some_tag_too_large(frames@));
            }
            return Err(DecodeError::FrameTooLarge);
        }
        proof {
            assert(3 * img.data@.len() <= usize::MAX);
        }
        let payload = compress_data(&img.data);
        if payload.len() > u32::MAX as usize {
            proof {
                assert(zlib_inflate(payload@) == Some(flat(frames@[i as int]@.data)));
                assert(some_payload_too_large(frames@));
            }
            return Err(DecodeError::FrameTooLarge);
        }
        let ghost out_before = out@;
        push_u32_le(&mut out, tag.len() as u32);
        out.extend_from_slice(tag.as_slice());
        push_u32_le(&mut out, img.w);
        push_u32_le(&mut out, img.h);
        push_u32_le(&mut out, img.max_color_val);
        push_u32_le(&mut out, payload.len() as u32);
        out.extend_from_slice(payload.as_slice());
        proof {
            assert(out@ =~= out_before + record_bytes(img@, tag@, payload@));
            lemma_concat_records_snoc(models, tags, payloads, img@, tag@, payload@);
            models = models.push(img@);
            tags = tags.push(tag@);
            payloads = payloads.push(payload@);
            assert(views_of(frames@.take(i + 1)) =~= models);
            assert(tag_bytes_of(frames@.take(i + 1)) =~= tags);
        }
        i = i + 1;
    }
    proof {
        assert(frames@.take(frames@.len() as int) =~= frames@);
        lemma_parse_concat(models, tags, payloads);
        lemma_auto_spec_u32_to_from_le_bytes();
        assert(out@.take(4) =~= spec_u32_to_le_bytes(count));
        assert(out@.skip(4) =~= concat_records(models, tags, payloads));
        assert forall|k: int| 0 <= k < frames@.len() implies (#[trigger] payloads[k]).len()
            <= u32::MAX && zlib_inflate(payloads[k]) == Some(flat(frames@[k]@.data)) by {
            assert(record_ok(models[k], tags[k], payloads[k]));
            assert(models[k] == frames@[k]@);
        }
        assert(payloads_ok(frames@, payloads));
        assert(out@ == container_bytes(frames@, payloads));
        assert forall|k: int| 0 <= k < frames@.len() implies encode_utf8(
            (#[trigger] frames@[k])@.format,
        ).len() <= u32::MAX by {
            assert(record_ok(models[k], tags[k], payloads[k]));
            assert(tags[k] == encode_utf8(frames@[k]@.format));
        }
    }
    Ok(out)
}

/// Round trip: when `serialize` produced `out` for `frames` (its contract:
/// `out` parses to the views of `frames`) and `deserialize` of `out` returned
/// `back` (its contract: `out` parses to the views of `back`), then `back`
/// reproduces every frame's format tag, dimensions, maximum channel value and
/// samples exactly.
pub proof fn lemma_round_trip(frames: Seq<Pixmap>, out: Seq<u8>, back: Seq<Pixmap>)
    requires
        parse_container(out) == ContainerParse::Frames(views_of(frames)),
        parse_container(out) == ContainerParse::Frames(views_of(back)),
    ensures
        back.len() == frames.len(),
        forall|k: int| 0 <= k < frames.len() ==> #[trigger] back[k]@ == frames[k]@,
{
    assert(views_of(back) == views_of(frames));
    assert(views_of(back).len() == back.len());
    assert(views_of(frames).len() == frames.len());
    assert forall|k: int| 0 <= k < frames.len() implies #[trigger] back[k]@ == frames[k]@ by {
        assert(views_of(back)[k] == back[k]@);
        assert(views_of(frames)[k] == frames[k]@);
    }
}

/// Prepends already-parsed frames to the outcome of parsing the remainder.
pub open spec fn prepend_frames(pre: Seq<ImageModel>, p: ContainerParse) -> ContainerParse {
    match p {
        ContainerParse::Frames(fs) => ContainerParse::Frames(pre + fs),
        e => e,
    }
}

/// Reads a little-endian 32-bit value at `pos`, if four bytes are there.
fn read_u32_le(bytes: &Vec<u8>, pos: usize) -> (r: Option<u32>)
    ensures
        match r {
            Some(v) => pos + 4 <= bytes@.len() && v == spec_u32_from_le_bytes(
                bytes@.subrange(pos as int, pos as int + 4),
            ),
            None => bytes@.len() < pos + 4,
        },
{
    if bytes.len() < 4 || pos > bytes.len() - 4 {
        return None;
    }
    let s = slice_subrange(bytes.as_slice(), pos, pos + 4);
    Some(u32_from_le_bytes(s))
}

/// Deserializes a container byte stream into its frame sequence.
///
/// Returns exactly what `parse_container` says of the bytes: the frames on
/// success; `TruncatedContainer` when the stream ends before a declared
/// length is satisfied; `FrameTooLarge` when a declared sample byte count
/// does not fit in memory; `CorruptCompressedData` when a compressed payload
/// cannot be decoded at all. No partial frame sequence is ever returned.
pub fn deserialize(bytes: &Vec<u8>) -> (r: Result<Vec<Pixmap>, DecodeError>)
    ensures
        match r {
            Ok(frames) => {
                &&& parse_container(bytes@) == ContainerParse::Frames(views_of(frames@))
                &&& forall|k: int| 0 <= k < frames@.len() ==> (#[trigger] frames@[k]).wf()
            },
            Err(e) => {
                ||| (e == DecodeError::TruncatedContainer && parse_container(bytes@)
                    == ContainerParse::Truncated)
                ||| (e == DecodeError::FrameTooLarge && parse_container(bytes@)
                    == ContainerParse::Oversized)
                ||| (e == DecodeError::CorruptCompressedData && parse_container(bytes@)
                    == ContainerParse::Corrupt)
            },
        },
{
    let n = match read_u32_le(bytes, 0) {
        Some(v) => v,
        None => {
            return Err(DecodeError::TruncatedContainer);
        },
    };
    proof {
        assert(bytes@.subrange(0, 4) =~= bytes@.take(4));
    }
    let ghost target = parse_container(bytes@);
    let total = bytes.len();
    proof {
        assert(bytes@.len() == total);
    }
    let mut frames: Vec<Pixmap> = Vec::new();
    let mut pos: usize = 4;
    let mut i: u32 = 0;
    while i < n
        invariant
            i <= n,
            4 <= pos <= bytes@.len(),
            bytes@.len() <= usize::MAX,
            frames@.len() == i,
            forall|k: int| 0 <= k < frames@.len() ==> (#[trigger] frames@[k]).wf(),
            target == parse_container(bytes@),
            target == prepend_frames(
                views_of(frames@),
                parse_frames(bytes@.skip(pos as int), (n - i) as nat),
            ),
        decreases n - i,
    {
        let ghost sp = bytes@.skip(pos as int);
        let ghost rem = (n - i) as nat;
        let taglen = match read_u32_le(bytes, pos) {
            Some(v) => v,
            None => {
                proof {
                    assert(sp.len() < 4);
                }
                return Err(DecodeError::TruncatedContainer);
            },
        };
        proof {
            assert(sp.take(4) =~= bytes@.subrange(pos as int, pos as int + 4));
        }
        let pos1 = pos + 4;
        if bytes.len() - pos1 < taglen as usize {
            proof {
                assert(sp.len() < 4 + taglen);
            }
            return Err(DecodeError::TruncatedContainer);
        }
        let pos2 = pos1 + taglen as usize;
        let tagv = slice_to_vec(slice_subrange(bytes.as_slice(), pos1, pos2));
        proof {
            assert(sp.subrange(4, 4 + taglen as int) =~= bytes@.subrange(
                pos1 as int,
                pos2 as int,
            ));
            assert(sp.skip(4 + taglen as int) =~= bytes@.skip(pos2 as int));
        }
        let ghost c = bytes@.skip(pos2 as int);
        if bytes.len() - pos2 < 16 {
            proof {
                assert(c.len() < 16);
            }
            return Err(DecodeError::TruncatedContainer);
        }
        let w = match read_u32_le(bytes, pos2) {
            Some(v) => v,
            None => {
                proof {
                    assert(false);
                }
                return Err(DecodeError::TruncatedContainer);
            },
        };
        let h = match read_u32_le(bytes, pos2 + 4) {
            Some(v) => v,
            None => {
                proof {
                    assert(false);
                }
                return Err(DecodeError::TruncatedContainer);
            },
        };
        let m = match read_u32_le(bytes, pos2 + 8) {
            Some(v) => v,
            None => {
                proof {
                    assert(false);
                }
                return Err(DecodeError::TruncatedContainer);
            },
        };
        let clen = match read_u32_le(bytes, pos2 + 12) {
            Some(v) => v,
            None => {
                proof {
                    assert(false);
                }
                return Err(DecodeError::TruncatedContainer);
            },
        };
        proof {
            assert(c.subrange(0, 4) =~= bytes@.subrange(pos2 as int, pos2 as int + 4));
            assert(c.subrange(4, 8) =~= bytes@.subrange(pos2 as int + 4, pos2 as int + 8));
            assert(c.subrange(8, 12) =~= bytes@.subrange(pos2 as int + 8, pos2 as int + 12));
            assert(c.subrange(12, 16) =~= bytes@.subrange(pos2 as int + 12, pos2 as int + 16));
        }
        let pos3 = pos2 + 16;
        if bytes.len() - pos3 < clen as usize {
            proof {
                assert(c.len() < 16 + clen);
            }
            return Err(DecodeError::TruncatedContainer);
        }
        let pos4 = pos3 + clen as usize;
        let payload = slice_to_vec(slice_subrange(bytes.as_slice(), pos3, pos4));
        proof {
            assert(c.subrange(16, 16 + clen as int) =~= bytes@.subrange(
                pos3 as int,
                pos4 as int,
            ));
            assert(c.skip(16 + clen as int) =~= bytes@.skip(pos4 as int));
        }
        proof {
            assert((w as int) * (h as int) < 0x10000000000000000) by (nonlinear_arith)
                requires
                    w < 0x100000000,
                    h < 0x100000000,
            ;
        }
        let need: u128 = (w as u128) * (h as u128) * 3;
        if need > usize::MAX as u128 {
            return Err(DecodeError::FrameTooLarge);
        }
        let data = match decompress_data(&payload, need as usize) {
            Ok(d) => d,
            Err(_) => {
                return Err(DecodeError::CorruptCompressedData);
            },
        };
        let format = lossy_string(&tagv);
        proof {
            assert((w * h * 3) / 3 == w * h) by (nonlinear_arith);
        }
        let px = Pixmap { format, w, h, max_color_val: m, data };
        proof {
            assert(px.wf());
            assert(parse_record(sp) == RecordParse::Rec(px@, bytes@.skip(pos4 as int)));
        }
        let ghost old_views = views_of(frames@);
        frames.push(px);
        pos = pos4;
        i = i + 1;
        proof {
            assert(views_of(frames@) =~= old_views.push(px@));
            let p_rest = parse_frames(bytes@.skip(pos as int), (n - i) as nat);
            assert(parse_frames(sp, rem) == prepend_frames(seq![px@], p_rest));
            match p_rest {
                ContainerParse::Frames(fs) => {
                    assert(old_views + (seq![px@] + fs) =~= old_views.push(px@) + fs);
                },
                _ => {},
            }
        }
    }
    proof {
        assert(views_of(frames@) + Seq::<ImageModel>::empty() =~= views_of(frames@));
    }
    Ok(frames)
}

} // verus!

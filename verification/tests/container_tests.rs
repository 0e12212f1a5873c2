use std::io::Write;

use fbplay::container::{compress_data, decompress_data, deserialize, serialize};
use fbplay::errors::{DecodeError, ErrorKind};
use fbplay::pixmap::{Pixmap, RGB};

fn px(r: u8, g: u8, b: u8) -> RGB {
    RGB { r, g, b }
}

fn zlib(data: &[u8]) -> Vec<u8> {
    let mut enc = flate2::write::ZlibEncoder::new(Vec::new(), flate2::Compression::default());
    enc.write_all(data).unwrap();
    enc.finish().unwrap()
}

fn record(tag: &[u8], w: u32, h: u32, maxv: u32, payload: &[u8]) -> Vec<u8> {
    let mut out = Vec::new();
    out.extend_from_slice(&(tag.len() as u32).to_le_bytes());
    out.extend_from_slice(tag);
    out.extend_from_slice(&w.to_le_bytes());
    out.extend_from_slice(&h.to_le_bytes());
    out.extend_from_slice(&maxv.to_le_bytes());
    out.extend_from_slice(&(payload.len() as u32).to_le_bytes());
    out.extend_from_slice(payload);
    out
}

#[test]
fn round_trip_two_frames_of_different_sizes() {
    let f1 = Pixmap {
        format: "P6".to_string(),
        w: 2,
        h: 2,
        max_color_val: 255,
        data: vec![px(255, 0, 0), px(0, 255, 0), px(0, 0, 255), px(255, 255, 255)],
    };
    let f2 = Pixmap {
        format: "tag".to_string(),
        w: 3,
        h: 1,
        max_color_val: 1000,
        data: vec![px(1, 2, 3), px(4, 5, 6), px(7, 8, 9)],
    };
    let frames = vec![f1, f2];
    let bytes = serialize(&frames).unwrap();
    let back = deserialize(&bytes).unwrap();
    assert_eq!(back.len(), 2);
    for (a, b) in frames.iter().zip(back.iter()) {
        assert_eq!(a.format, b.format);
        assert_eq!(a.w, b.w);
        assert_eq!(a.h, b.h);
        assert_eq!(a.max_color_val, b.max_color_val);
        assert_eq!(a.data, b.data);
    }
}

#[test]
fn round_trip_single_2x2_image() {
    let frame = Pixmap {
        format: "P6".to_string(),
        w: 2,
        h: 2,
        max_color_val: 255,
        data: vec![px(255, 0, 0), px(0, 255, 0), px(0, 0, 255), px(255, 255, 255)],
    };
    let bytes = serialize(&vec![frame]).unwrap();
    let back = deserialize(&bytes).unwrap();
    assert_eq!(back.len(), 1);
    assert_eq!(
        back[0].data,
        vec![px(255, 0, 0), px(0, 255, 0), px(0, 0, 255), px(255, 255, 255)]
    );
}

#[test]
fn serialized_layout_is_exact() {
    let frame = Pixmap {
        format: "P6".to_string(),
        w: 2,
        h: 2,
        max_color_val: 255,
        data: vec![px(255, 0, 0), px(0, 255, 0), px(0, 0, 255), px(255, 255, 255)],
    };
    let bytes = serialize(&vec![frame]).unwrap();
    assert_eq!(&bytes[0..4], &1u32.to_le_bytes()); // frame count
    assert_eq!(&bytes[4..8], &2u32.to_le_bytes()); // tag byte length
    assert_eq!(&bytes[8..10], b"P6"); // tag bytes
    assert_eq!(&bytes[10..14], &2u32.to_le_bytes()); // width
    assert_eq!(&bytes[14..18], &2u32.to_le_bytes()); // height
    assert_eq!(&bytes[18..22], &255u32.to_le_bytes()); // max channel value
    let clen = u32::from_le_bytes(bytes[22..26].try_into().unwrap()) as usize;
    assert_eq!(bytes.len(), 26 + clen); // nothing after the payload
    let mut dec = flate2::read::ZlibDecoder::new(&bytes[26..]);
    let mut raw = Vec::new();
    std::io::Read::read_to_end(&mut dec, &mut raw).unwrap();
    assert_eq!(raw, vec![255, 0, 0, 0, 255, 0, 0, 0, 255, 255, 255, 255]);
}

#[test]
fn empty_container_round_trip() {
    let bytes = serialize(&Vec::new()).unwrap();
    assert_eq!(bytes, vec![0, 0, 0, 0]);
    let back = deserialize(&bytes).unwrap();
    assert!(back.is_empty());
}

#[test]
fn short_payload_pads_with_black() {
    let mut bytes = 1u32.to_le_bytes().to_vec();
    bytes.extend_from_slice(&record(b"P6", 2, 1, 255, &zlib(&[7, 8, 9])));
    let frames = deserialize(&bytes).unwrap();
    assert_eq!(frames.len(), 1);
    assert_eq!(frames[0].data, vec![px(7, 8, 9), px(0, 0, 0)]);
}

#[test]
fn partial_trailing_pixel_pads_missing_channels() {
    let mut bytes = 1u32.to_le_bytes().to_vec();
    bytes.extend_from_slice(&record(b"P6", 2, 1, 255, &zlib(&[7, 8, 9, 10])));
    let frames = deserialize(&bytes).unwrap();
    assert_eq!(frames[0].data, vec![px(7, 8, 9), px(10, 0, 0)]);
}

#[test]
fn excess_decompressed_bytes_are_dropped() {
    let mut bytes = 1u32.to_le_bytes().to_vec();
    bytes.extend_from_slice(&record(b"P6", 1, 1, 255, &zlib(&[1, 2, 3, 4, 5, 6, 7])));
    let frames = deserialize(&bytes).unwrap();
    assert_eq!(frames[0].data, vec![px(1, 2, 3)]);
}

#[test]
fn declared_payload_longer_than_stream_is_io_error() {
    let mut bytes = 1u32.to_le_bytes().to_vec();
    let mut rec = record(b"P6", 2, 1, 255, &zlib(&[1, 2, 3, 4, 5, 6]));
    // Declare more compressed bytes than the stream still holds.
    let plen_at = rec.len() - zlib(&[1, 2, 3, 4, 5, 6]).len() - 4;
    rec[plen_at..plen_at + 4].copy_from_slice(&1000u32.to_le_bytes());
    bytes.extend_from_slice(&rec);
    let err = deserialize(&bytes).unwrap_err();
    assert_eq!(err, DecodeError::TruncatedContainer);
    assert_eq!(err.kind(), ErrorKind::Io);
}

#[test]
fn truncated_frame_count_is_io_error() {
    let err = deserialize(&vec![1, 2]).unwrap_err();
    assert_eq!(err, DecodeError::TruncatedContainer);
    assert_eq!(err.kind(), ErrorKind::Io);
}

#[test]
fn missing_record_is_io_error() {
    // One frame declared, nothing after the count.
    let err = deserialize(&2u32.to_le_bytes().to_vec()).unwrap_err();
    assert_eq!(err, DecodeError::TruncatedContainer);
}

#[test]
fn corrupt_payload_is_codec_error() {
    let mut bytes = 1u32.to_le_bytes().to_vec();
    bytes.extend_from_slice(&record(b"P6", 1, 1, 255, &[0xFF, 0xFE, 0xFD, 0xFC]));
    let err = deserialize(&bytes).unwrap_err();
    assert_eq!(err, DecodeError::CorruptCompressedData);
    assert_eq!(err.kind(), ErrorKind::Codec);
}

#[test]
fn oversized_dimensions_are_format_error() {
    let mut bytes = 1u32.to_le_bytes().to_vec();
    bytes.extend_from_slice(&record(b"P6", u32::MAX, u32::MAX, 255, &[]));
    let err = deserialize(&bytes).unwrap_err();
    assert_eq!(err, DecodeError::FrameTooLarge);
    assert_eq!(err.kind(), ErrorKind::Format);
}

#[test]
fn trailing_bytes_after_last_record_are_ignored() {
    let frame = Pixmap {
        format: "P6".to_string(),
        w: 1,
        h: 1,
        max_color_val: 255,
        data: vec![px(9, 9, 9)],
    };
    let mut bytes = serialize(&vec![frame]).unwrap();
    bytes.extend_from_slice(b"garbage");
    let back = deserialize(&bytes).unwrap();
    assert_eq!(back.len(), 1);
    assert_eq!(back[0].data, vec![px(9, 9, 9)]);
}

#[test]
fn compress_then_decompress_reproduces_samples() {
    let data = vec![px(1, 2, 3), px(200, 100, 50), px(0, 0, 0), px(255, 255, 255)];
    let compressed = compress_data(&data);
    let back = decompress_data(&compressed, data.len() * 3).unwrap();
    assert_eq!(back, data);
}

#[test]
fn decompress_rejects_corrupt_stream() {
    let err = decompress_data(&vec![0xAA, 0xBB, 0xCC], 3).unwrap_err();
    assert_eq!(err, DecodeError::CorruptCompressedData);
}

#[test]
fn error_messages_follow_the_taxonomy() {
    assert_eq!(DecodeError::TruncatedContainer.message(), "truncated container");
    assert_eq!(DecodeError::CorruptCompressedData.message(), "corrupt compressed data");
    assert_eq!(DecodeError::FrameTooLarge.message(), "frame too large");
    assert_eq!(DecodeError::UnsupportedImageFormat.kind(), ErrorKind::Format);
}

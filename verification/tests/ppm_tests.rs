use fbplay::errors::DecodeError;
use fbplay::pixmap::RGB;
use fbplay::ppm::decode_ppm;

fn ppm(header: &str, samples: &[u8]) -> Vec<u8> {
    let mut bytes = header.as_bytes().to_vec();
    bytes.extend_from_slice(samples);
    bytes
}

#[test]
fn decodes_a_small_image() {
    let bytes = ppm(
        "P6\n2 2\n255\n",
        &[255, 0, 0, 0, 255, 0, 0, 0, 255, 255, 255, 255],
    );
    let img = decode_ppm(&bytes).unwrap();
    assert_eq!(img.format, "P6");
    assert_eq!(img.w, 2);
    assert_eq!(img.h, 2);
    assert_eq!(img.max_color_val, 255);
    assert_eq!(
        img.data,
        vec![
            RGB { r: 255, g: 0, b: 0 },
            RGB { r: 0, g: 255, b: 0 },
            RGB { r: 0, g: 0, b: 255 },
            RGB { r: 255, g: 255, b: 255 },
        ]
    );
}

#[test]
fn tolerates_extra_whitespace_and_tokens() {
    let bytes = ppm("P6\n  1   1  extra\n  255  \n", &[10, 20, 30]);
    let img = decode_ppm(&bytes).unwrap();
    assert_eq!((img.w, img.h), (1, 1));
    assert_eq!(img.data, vec![RGB { r: 10, g: 20, b: 30 }]);
}

#[test]
fn tag_line_may_carry_more_text() {
    let bytes = ppm("P6 created somewhere\n1 1\n255\n", &[1, 2, 3]);
    assert!(decode_ppm(&bytes).is_ok());
}

#[test]
fn rejects_other_format_tags() {
    let bytes = ppm("P5\n1 1\n255\n", &[0]);
    assert_eq!(decode_ppm(&bytes).unwrap_err(), DecodeError::UnsupportedImageFormat);
}

#[test]
fn rejects_empty_input() {
    assert_eq!(decode_ppm(&Vec::new()).unwrap_err(), DecodeError::UnsupportedImageFormat);
}

#[test]
fn rejects_non_numeric_dimensions() {
    let bytes = ppm("P6\nx 2\n255\n", &[0, 0, 0]);
    assert_eq!(decode_ppm(&bytes).unwrap_err(), DecodeError::MalformedDimensions);
}

#[test]
fn rejects_a_single_dimension() {
    let bytes = ppm("P6\n2\n255\n", &[0, 0, 0]);
    assert_eq!(decode_ppm(&bytes).unwrap_err(), DecodeError::MalformedDimensions);
}

#[test]
fn rejects_dimensions_that_do_not_fit_32_bits() {
    let bytes = ppm("P6\n4294967296 1\n255\n", &[0, 0, 0]);
    assert_eq!(decode_ppm(&bytes).unwrap_err(), DecodeError::MalformedDimensions);
}

#[test]
fn accepts_the_largest_max_value() {
    let bytes = ppm("P6\n1 1\n4294967295\n", &[1, 2, 3]);
    assert_eq!(decode_ppm(&bytes).unwrap().max_color_val, u32::MAX);
}

#[test]
fn rejects_an_empty_max_value_line() {
    let bytes = ppm("P6\n1 1\n\n", &[1, 2, 3]);
    assert_eq!(decode_ppm(&bytes).unwrap_err(), DecodeError::MalformedMaxValue);
}

#[test]
fn rejects_two_tokens_on_the_max_value_line() {
    let bytes = ppm("P6\n1 1\n255 255\n", &[1, 2, 3]);
    assert_eq!(decode_ppm(&bytes).unwrap_err(), DecodeError::MalformedMaxValue);
}

#[test]
fn rejects_short_sample_data() {
    let bytes = ppm("P6\n2 2\n255\n", &[0; 11]);
    assert_eq!(decode_ppm(&bytes).unwrap_err(), DecodeError::SampleCountMismatch);
}

#[test]
fn rejects_long_sample_data() {
    let bytes = ppm("P6\n2 2\n255\n", &[0; 13]);
    assert_eq!(decode_ppm(&bytes).unwrap_err(), DecodeError::SampleCountMismatch);
}

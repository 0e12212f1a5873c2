//! Decoding and rendering of a compact multi-frame raster container.
//!
//! The library has three parts: a decoder for a small portable raster image
//! format (`ppm`), a binary container that stores a sequence of frames, each
//! individually zlib-compressed (`container`), and a blitter that writes
//! grayscale-reduced frames into a fixed-geometry byte buffer describing a
//! display surface (`blit`).

pub mod blit;
pub mod container;
pub mod errors;
pub mod pixmap;
pub mod ppm;
pub mod strbytes;
pub mod zlib;

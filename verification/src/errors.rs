//! The error taxonomy of the library.
//!
//! Every failure of decoding falls into one of three kinds: the input is
//! malformed with respect to the format (`Format`), the input stream ends
//! before a declared length is satisfied (`Io`), or a compressed payload
//! cannot be decoded at all (`Codec`). All are fatal for the operation that
//! raised them: no partial result is ever returned beside them.

use vstd::prelude::*;

verus! {

/// A failure of decoding or encoding, fatal for the whole operation.
#[derive(Debug, Clone, Copy, PartialEq, Eq, Structural)]
pub enum DecodeError {
    /// The image header does not begin with a recognized format tag.
    UnsupportedImageFormat,
    /// The dimension line of an image header does not hold two unsigned integers.
    MalformedDimensions,
    /// The maximum-value line of an image header does not hold one unsigned integer.
    MalformedMaxValue,
    /// The raw sample bytes of an image are not exactly `width * height * 3` bytes.
    SampleCountMismatch,
    /// A frame's tag, sample data or count does not fit the container's size fields.
    FrameTooLarge,
    /// The container stream ends before a declared length is satisfied.
    TruncatedContainer,
    /// A compressed payload is corrupt and cannot be decoded at all.
    CorruptCompressedData,
}

/// The three kinds of failure.
#[derive(Debug, Clone, Copy, PartialEq, Eq, Structural)]
pub enum ErrorKind {
    Format,
    Io,
    Codec,
}

impl DecodeError {
    /// Which of the three kinds this error belongs to.
    pub open spec fn spec_kind(self) -> ErrorKind {
        match self {
            DecodeError::TruncatedContainer => ErrorKind::Io,
            DecodeError::CorruptCompressedData => ErrorKind::Codec,
            _ => ErrorKind::Format,
        }
    }

    /// Returns the kind of this error.
    pub fn kind(&self) -> (k: ErrorKind)
        ensures
            k == self.spec_kind(),
    {
        match self {
            DecodeError::TruncatedContainer => ErrorKind::Io,
            DecodeError::CorruptCompressedData => ErrorKind::Codec,
            _ => ErrorKind::Format,
        }
    }

    /// The description of each error.
    pub open spec fn spec_message(self) -> Seq<char> {
        match self {
            DecodeError::UnsupportedImageFormat => "unsupported image format"@,
            DecodeError::MalformedDimensions => "malformed dimensions"@,
            DecodeError::MalformedMaxValue => "malformed max value"@,
            DecodeError::SampleCountMismatch => "sample count mismatch"@,
            DecodeError::FrameTooLarge => "frame too large"@,
            DecodeError::TruncatedContainer => "truncated container"@,
            DecodeError::CorruptCompressedData => "corrupt compressed data"@,
        }
    }

    /// A short description of this error.
    pub fn message(&self) -> (r: String)
        ensures
            r@ == self.spec_message(),
    {
        match self {
            DecodeError::UnsupportedImageFormat => "unsupported image format".to_owned(),
            DecodeError::MalformedDimensions => "malformed dimensions".to_owned(),
            DecodeError::MalformedMaxValue => "malformed max value".to_owned(),
            DecodeError::SampleCountMismatch => "sample count mismatch".to_owned(),
            DecodeError::FrameTooLarge => "frame too large".to_owned(),
            DecodeError::TruncatedContainer => "truncated container".to_owned(),
            DecodeError::CorruptCompressedData => "corrupt compressed data".to_owned(),
        }
    }
}

} // verus!

//! The errors of the library.

use vstd::prelude::*;

use crate::compression::CompressionType;

verus! {

/// Failure of a zlib decoding, as the codec reports it.
#[verifier::external_type_specification]
#[verifier::external_body]
pub struct ExInflateError(miniz_oxide::inflate::DecompressError);

/// Failure of reading an LZ4 block stream, as the codec reports it.
#[verifier::external_type_specification]
#[verifier::external_body]
pub struct ExStreamError(std::io::Error);

/// What can go wrong while reading or writing a region.
#[derive(Debug)]
pub enum McaError {
    /// The buffer is too short to hold the two header tables.
    MissingHeader,
    /// A payload frame does not fit the region; the text says in which way.
    InvalidChunkPayload(String),
    /// A header slot lies outside the buffer.
    OutOfBoundsByte,
    /// The byte is not the tag of any compression type.
    InvalidCompressionType(u8),
    /// The compression type is known, but its algorithm is not available.
    UnsupportedCompression(CompressionType),
    /// The bytes are no LZ4 block stream.
    IoError(std::io::Error),
    /// The zlib stream could not be decoded.
    ZLib(miniz_oxide::inflate::DecompressError),
}

impl From<std::io::Error> for McaError {
    fn from(e: std::io::Error) -> (r: McaError) {
        McaError::IoError(e)
    }
}

impl vstd::std_specs::convert::FromSpecImpl<std::io::Error> for McaError {
    open spec fn obeys_from_spec() -> bool {
        true
    }

    open spec fn from_spec(e: std::io::Error) -> McaError {
        McaError::IoError(e)
    }
}

impl From<miniz_oxide::inflate::DecompressError> for McaError {
    fn from(e: miniz_oxide::inflate::DecompressError) -> (r: McaError) {
        McaError::ZLib(e)
    }
}

impl vstd::std_specs::convert::FromSpecImpl<miniz_oxide::inflate::DecompressError> for McaError {
    open spec fn obeys_from_spec() -> bool {
        true
    }

    open spec fn from_spec(e: miniz_oxide::inflate::DecompressError) -> McaError {
        McaError::ZLib(e)
    }
}

} // verus!

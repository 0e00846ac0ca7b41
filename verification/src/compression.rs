//! The compression types of a chunk and their one-byte tags.

use vstd::prelude::*;
use vstd::slice::slice_to_vec;

use crate::codec::{
    lz4_block_compress, lz4_block_content, lz4_block_decompress, zlib_content, zlib_stream,
};
use crate::error::McaError;

verus! {

/// Compression types used in chunks.
///
/// `GZip` and `Custom` are recognised, but no algorithm stands behind them.
#[derive(Debug, Clone, Copy, PartialEq, Eq, PartialOrd, Ord, Hash, Structural)]
pub enum CompressionType {
    GZip,
    Zlib,
    Uncompressed,
    LZ4,
    Custom,
}

/// The level at which zlib streams are written.
pub const ZLIB_LEVEL: u8 = 4;

/// Whether `tag` is the tag of a compression type.
pub open spec fn valid_tag(tag: u8) -> bool {
    tag == 1 || tag == 2 || tag == 3 || tag == 4 || tag == 127
}

/// The compression type with the tag `tag`, for a valid tag.
pub open spec fn compression_of(tag: u8) -> CompressionType {
    if tag == 1 {
        CompressionType::GZip
    } else if tag == 2 {
        CompressionType::Zlib
    } else if tag == 3 {
        CompressionType::Uncompressed
    } else if tag == 4 {
        CompressionType::LZ4
    } else {
        CompressionType::Custom
    }
}

impl From<CompressionType> for u8 {
    fn from(value: CompressionType) -> (r: u8) {
        value.to_u8()
    }
}

impl vstd::std_specs::convert::FromSpecImpl<CompressionType> for u8 {
    open spec fn obeys_from_spec() -> bool {
        true
    }

    open spec fn from_spec(value: CompressionType) -> u8 {
        value.tag()
    }
}

impl TryFrom<u8> for CompressionType {
    type Error = McaError;

    fn try_from(value: u8) -> (r: Result<CompressionType, McaError>) {
        CompressionType::from_u8(value)
    }
}

impl vstd::std_specs::convert::TryFromSpecImpl<u8> for CompressionType {
    open spec fn obeys_try_from_spec() -> bool {
        true
    }

    open spec fn try_from_spec(value: u8) -> Result<CompressionType, McaError> {
        if valid_tag(value) {
            Ok(compression_of(value))
        } else {
            Err(McaError::InvalidCompressionType(value))
        }
    }
}

impl CompressionType {
    /// The tag under which a payload frame records this compression type.
    pub open spec fn tag(self) -> u8 {
        match self {
            CompressionType::GZip => 1,
            CompressionType::Zlib => 2,
            CompressionType::Uncompressed => 3,
            CompressionType::LZ4 => 4,
            CompressionType::Custom => 127,
        }
    }

    /// Whether an algorithm stands behind this compression type.
    pub open spec fn supported(self) -> bool {
        self == CompressionType::Zlib || self == CompressionType::Uncompressed || self
            == CompressionType::LZ4
    }

    /// Whether `out` is what compressing `data` may give. Without
    /// compression it is `data` itself. A zlib stream is determined by `data`
    /// and leads back to it. An LZ4 block stream may differ from machine to
    /// machine, and always leads back to `data`.
    pub open spec fn encodes(self, data: Seq<u8>, out: Seq<u8>) -> bool {
        match self {
            CompressionType::Uncompressed => out == data,
            CompressionType::Zlib => out == zlib_stream(data, ZLIB_LEVEL) && zlib_content(out)
                == Some(data),
            CompressionType::LZ4 => lz4_block_content(out) == Some(data),
            CompressionType::GZip | CompressionType::Custom => false,
        }
    }

    /// The bytes that `data` stands for under this compression type; `None`
    /// where `data` is malformed or no algorithm is available.
    pub open spec fn decoded(self, data: Seq<u8>) -> Option<Seq<u8>> {
        match self {
            CompressionType::Uncompressed => Some(data),
            CompressionType::Zlib => zlib_content(data),
            CompressionType::LZ4 => lz4_block_content(data),
            CompressionType::GZip | CompressionType::Custom => None,
        }
    }

    /// The error of a decompression that failed.
    pub open spec fn decompress_failure(self, e: McaError) -> bool {
        match self {
            CompressionType::Zlib => e is ZLib,
            CompressionType::LZ4 => e is IoError,
            CompressionType::Uncompressed => false,
            CompressionType::GZip | CompressionType::Custom => e
                == McaError::UnsupportedCompression(self),
        }
    }

    /// The compression type of a tag; any other byte is refused.
    pub fn from_u8(value: u8) -> (r: Result<CompressionType, McaError>)
        ensures
            valid_tag(value) ==> r == Ok::<CompressionType, McaError>(compression_of(value)),
            !valid_tag(value) ==> r == Err::<CompressionType, McaError>(
                McaError::InvalidCompressionType(value),
            ),
    {
        match value {
            1 => Ok(CompressionType::GZip),
            2 => Ok(CompressionType::Zlib),
            3 => Ok(CompressionType::Uncompressed),
            4 => Ok(CompressionType::LZ4),
            127 => Ok(CompressionType::Custom),
            _ => Err(McaError::InvalidCompressionType(value)),
        }
    }

    /// The tag of this compression type.
    pub fn to_u8(&self) -> (r: u8)
        ensures
            r == self.tag(),
    {
        match self {
            CompressionType::GZip => 1,
            CompressionType::Zlib => 2,
            CompressionType::Uncompressed => 3,
            CompressionType::LZ4 => 4,
            CompressionType::Custom => 127,
        }
    }

    /// Compresses `data`. `Uncompressed` copies it. Every compression type
    /// with an algorithm succeeds. `GZip` and `Custom` are refused with
    /// `UnsupportedCompression`.
    pub fn compress(&self, data: &[u8]) -> (r: Result<Vec<u8>, McaError>)
        ensures
            self.supported() ==> r is Ok && self.encodes(data@, r->Ok_0@),
            !self.supported() ==> r is Err && r->Err_0 == McaError::UnsupportedCompression(*self),
    {
        match self {
            CompressionType::Zlib => Ok(
                miniz_oxide::deflate::compress_to_vec_zlib(data, ZLIB_LEVEL),
            ),
            CompressionType::Uncompressed => Ok(slice_to_vec(data)),
            CompressionType::LZ4 => match lz4_block_compress(data) {
                Ok(out) => Ok(out),
                Err(e) => Err(McaError::from(e)),
            },
            CompressionType::GZip => Err(McaError::UnsupportedCompression(CompressionType::GZip)),
            CompressionType::Custom => Err(
                McaError::UnsupportedCompression(CompressionType::Custom),
            ),
        }
    }

    /// Decompresses `data`. `Uncompressed` copies it. `Zlib` and `LZ4` fail on
    /// what is no stream of theirs. `GZip` and `Custom` are refused with
    /// `UnsupportedCompression`.
    pub fn decompress(&self, data: &[u8]) -> (r: Result<Vec<u8>, McaError>)
        ensures
            match r {
                Ok(out) => self.decoded(data@) == Some(out@),
                Err(e) => self.decoded(data@) is None && self.decompress_failure(e),
            },
    {
        match self {
            CompressionType::Zlib => match miniz_oxide::inflate::decompress_to_vec_zlib(data) {
                Ok(out) => Ok(out),
                Err(e) => Err(McaError::from(e)),
            },
            CompressionType::Uncompressed => Ok(slice_to_vec(data)),
            CompressionType::LZ4 => match lz4_block_decompress(data) {
                Ok(out) => Ok(out),
                Err(e) => Err(McaError::from(e)),
            },
            CompressionType::GZip => Err(McaError::UnsupportedCompression(CompressionType::GZip)),
            CompressionType::Custom => Err(
                McaError::UnsupportedCompression(CompressionType::Custom),
            ),
        }
    }
}

} // verus!

//! A chunk as it is read from a region, and a chunk that waits to be written.

use vstd::prelude::*;

use crate::compression::CompressionType;
use crate::error::McaError;

verus! {

/// A raw compressed chunk: the bytes of one payload frame, borrowed from the
/// region they were read from, and the compression type that the frame names.
#[derive(Debug, Clone, Copy, PartialEq, Eq, PartialOrd, Ord)]
pub struct RawChunk<'a> {
    pub raw_data: &'a [u8],
    compression_type: CompressionType,
}

impl<'a> RawChunk<'a> {
    /// The compressed bytes of the chunk.
    pub closed spec fn data(&self) -> Seq<u8> {
        self.raw_data@
    }

    /// The compression type of the chunk.
    pub closed spec fn compression(&self) -> CompressionType {
        self.compression_type
    }

    /// Decompresses the raw chunk data by its compression type.
    pub fn decompress(&self) -> (r: Result<Vec<u8>, McaError>)
        ensures
            match r {
                Ok(out) => self.compression().decoded(self.data()) == Some(out@),
                Err(e) => self.compression().decoded(self.data()) is None
                    && self.compression().decompress_failure(e),
            },
    {
        self.compression_type.decompress(self.raw_data)
    }

    /// The compressed bytes of the chunk.
    pub fn raw_data(&self) -> (r: &'a [u8])
        ensures
            r@ == self.data(),
    {
        self.raw_data
    }

    /// The compression type of the chunk.
    pub fn get_compression_type(&self) -> (r: CompressionType)
        ensures
            r == self.compression(),
    {
        self.compression_type
    }

    /// A raw chunk of these bytes and this compression type.
    pub fn new(data: &'a [u8], compression: CompressionType) -> (r: RawChunk<'a>)
        ensures
            r.data() == data@,
            r.compression() == compression,
    {
        RawChunk { raw_data: data, compression_type: compression }
    }
}

/// What a pending chunk holds, with its bytes as a sequence.
pub struct ChunkEntry {
    pub data: Seq<u8>,
    pub compression: CompressionType,
    pub timestamp: u32,
    pub coordinate: (u8, u8),
}

/// A pending chunk: compressed bytes with what a region records of them.
#[derive(Debug, PartialEq, Eq, PartialOrd, Ord)]
pub struct PendingChunk {
    pub compressed_data: Vec<u8>,
    pub compression: CompressionType,
    pub timestamp: u32,
    pub coordinate: (u8, u8),
}

impl View for PendingChunk {
    type V = ChunkEntry;

    open spec fn view(&self) -> ChunkEntry {
        ChunkEntry {
            data: self.compressed_data@,
            compression: self.compression,
            timestamp: self.timestamp,
            coordinate: self.coordinate,
        }
    }
}

impl Clone for PendingChunk {
    fn clone(&self) -> (r: PendingChunk)
        ensures
            r@ == self@,
    {
        PendingChunk {
            compressed_data: self.compressed_data.clone(),
            compression: self.compression,
            timestamp: self.timestamp,
            coordinate: (self.coordinate.0, self.coordinate.1),
        }
    }
}

impl PendingChunk {
    /// Compresses `raw_data` into a pending chunk for `coordinate`. This
    /// succeeds for every compression type with an algorithm; the others are
    /// refused with `UnsupportedCompression`.
    pub fn new(
        raw_data: &[u8],
        compression: CompressionType,
        timestamp: u32,
        coordinate: (u8, u8),
    ) -> (r: Result<PendingChunk, McaError>)
        requires
            coordinate.0 < 32,
            coordinate.1 < 32,
        ensures
            compression.supported() ==> r is Ok && compression.encodes(
                raw_data@,
                r->Ok_0@.data,
            ) && r->Ok_0@ == (ChunkEntry {
                data: r->Ok_0@.data,
                compression,
                timestamp,
                coordinate,
            }),
            !compression.supported() ==> r is Err && r->Err_0
                == McaError::UnsupportedCompression(compression),
    {
        match compression.compress(raw_data) {
            Ok(compressed_data) => Ok(
                PendingChunk { compressed_data, compression, timestamp, coordinate },
            ),
            Err(e) => Err(e),
        }
    }
}

} // verus!

//! Reading chunks and header entries out of a region held in memory.

use vstd::prelude::*;
use vstd::slice::slice_subrange;

use crate::chunk::RawChunk;
use crate::compression::CompressionType;
use crate::error::McaError;
use crate::format::{
    be32, location_at, lookup, slot_offset, timestamp_at, ChunkLookup, HEADER_SIZE, SECTOR_SIZE,
};

verus! {

/// The reason given where the length of a frame lies outside the buffer.
pub open spec fn prefix_reason() -> Seq<char> {
    "length prefix out of bounds"@
}

/// The reason given where a frame states the length zero.
pub open spec fn empty_reason() -> Seq<char> {
    "payload length is zero"@
}

/// The reason given where the bytes of a frame lie outside the buffer.
pub open spec fn payload_reason() -> Seq<char> {
    "payload bytes out of bounds"@
}

/// Whether `r` reports `found`: `Ok(None)` for an empty slot, the chunk for a
/// well-formed frame, and for each defect its error.
pub open spec fn reports(r: Result<Option<RawChunk>, McaError>, found: ChunkLookup) -> bool {
    match found {
        ChunkLookup::Absent => r == Ok::<Option<RawChunk>, McaError>(None),
        ChunkLookup::Present { compression, data } => r matches Ok(Some(chunk)) && chunk.data()
            == data && chunk.compression() == compression,
        ChunkLookup::PrefixOutOfBounds => r matches Err(McaError::InvalidChunkPayload(reason))
            && reason@ == prefix_reason(),
        ChunkLookup::EmptyPayload => r matches Err(McaError::InvalidChunkPayload(reason))
            && reason@ == empty_reason(),
        ChunkLookup::PayloadOutOfBounds => r matches Err(McaError::InvalidChunkPayload(reason))
            && reason@ == payload_reason(),
        ChunkLookup::UnknownCompression(tag) => r == Err::<Option<RawChunk>, McaError>(
            McaError::InvalidCompressionType(tag),
        ),
    }
}

/// A region: a buffer of at least 8192 bytes, with methods to get the bytes
/// of a chunk and the header entries.
#[derive(Debug, Clone, Copy, PartialEq, Eq, PartialOrd, Ord)]
pub struct RegionReader<'a> {
    data: &'a [u8],
}

impl<'a> View for RegionReader<'a> {
    type V = Seq<u8>;

    closed spec fn view(&self) -> Seq<u8> {
        self.data@
    }
}

impl<'a> RegionReader<'a> {
    #[verifier::type_invariant]
    spec fn has_header(self) -> bool {
        self.data@.len() >= 8192
    }

    /// Wraps `data`, which must hold the two header tables.
    pub fn new(data: &'a [u8]) -> (r: Result<RegionReader<'a>, McaError>)
        ensures
            data@.len() >= 8192 ==> r is Ok && r->Ok_0@ == data@,
            data@.len() < 8192 ==> r == Err::<RegionReader<'a>, McaError>(McaError::MissingHeader),
    {
        if data.len() < HEADER_SIZE {
            return Err(McaError::MissingHeader);
        }
        Ok(RegionReader { data })
    }

    /// The bytes of the region, which always hold the two header tables.
    pub fn inner(&self) -> (r: &'a [u8])
        ensures
            r@ == self@,
            r@.len() >= 8192,
    {
        proof {
            use_type_invariant(self);
        }
        self.data
    }

    /// The byte offset of the slot of chunk `(x, z)` inside a header table.
    /// Only the low five bits of `x` and `z` count.
    pub fn chunk_offset(x: usize, z: usize) -> (r: usize)
        ensures
            r == slot_offset(x as int, z as int),
            r <= 4092,
    {
        assert(x & 31 == x % 32) by (bit_vector);
        assert(z & 31 == z % 32) by (bit_vector);
        4 * ((x & 31) + (z & 31) * 32)
    }

    /// The chunk `(x, z)`: `None` where its slot is empty, else the frame
    /// that its location entry points to, or the error that fits the frame's
    /// defect.
    pub fn get_chunk(&self, x: usize, z: usize) -> (r: Result<Option<RawChunk<'a>>, McaError>)
        ensures
            reports(r, lookup(self@, x as int, z as int)),
    {
        let data: &'a [u8] = self.data;
        let data_len: u64 = data.len() as u64;
        let offset: usize = RegionReader::chunk_offset(x, z);
        let location: [u8; 4] = match self.get_location(offset) {
            Some(location) => location,
            None => {
                return Ok(None);
            },
        };
        let sector: u64 = location[0] as u64 * 65536 + location[1] as u64 * 256
            + location[2] as u64;
        let start: u64 = sector * SECTOR_SIZE as u64;
        if data_len < start + 4 {
            return Err(McaError::InvalidChunkPayload("length prefix out of bounds".to_owned()));
        }
        let at: usize = start as usize;
        let length: u64 = data[at] as u64 * 16777216 + data[at + 1] as u64 * 65536 + data[at
            + 2] as u64 * 256 + data[at + 3] as u64;
        assert(length == be32(data@.subrange(at as int, at + 4)));
        if length == 0 {
            return Err(McaError::InvalidChunkPayload("payload length is zero".to_owned()));
        }
        if data_len < start + 4 + length {
            return Err(McaError::InvalidChunkPayload("payload bytes out of bounds".to_owned()));
        }
        let compression: CompressionType = match CompressionType::from_u8(data[at + 4]) {
            Ok(compression) => compression,
            Err(e) => {
                return Err(e);
            },
        };
        let raw_data: &'a [u8] = slice_subrange(data, at + 5, at + 4 + length as usize);
        Ok(Some(RawChunk::new(raw_data, compression)))
    }

    /// The location entry at `offset`: `None` where the slot is empty (first
    /// and last byte zero) or lies outside the buffer.
    pub fn get_location(&self, offset: usize) -> (r: Option<[u8; 4]>)
        ensures
            match r {
                Some(bytes) => location_at(self@, offset as int) == Some(bytes@),
                None => location_at(self@, offset as int) is None,
            },
    {
        let data: &'a [u8] = self.data;
        if data.len() < 4 || offset > data.len() - 4 {
            return None;
        }
        if data[offset] == 0 && data[offset + 3] == 0 {
            return None;
        }
        let bytes: [u8; 4] = [data[offset], data[offset + 1], data[offset + 2], data[offset + 3]];
        assert(bytes@ =~= self@.subrange(offset as int, offset + 4));
        Some(bytes)
    }

    /// The timestamp entry at `offset` in the second table, as its four
    /// bytes; `OutOfBoundsByte` where they lie outside the buffer.
    pub fn get_timestamp(&self, offset: usize) -> (r: Result<[u8; 4], McaError>)
        ensures
            match r {
                Ok(bytes) => timestamp_at(self@, offset as int) == Some(bytes@),
                Err(e) => timestamp_at(self@, offset as int) is None && e
                    == McaError::OutOfBoundsByte,
            },
    {
        let data: &'a [u8] = self.data;
        if data.len() < SECTOR_SIZE + 4 || offset > data.len() - SECTOR_SIZE - 4 {
            return Err(McaError::OutOfBoundsByte);
        }
        let at: usize = SECTOR_SIZE + offset;
        let bytes: [u8; 4] = [data[at], data[at + 1], data[at + 2], data[at + 3]];
        assert(bytes@ =~= self@.subrange(at as int, at + 4));
        Ok(bytes)
    }

    /// A walk over all 1024 slots, which starts at slot 0.
    pub fn iter(&self) -> (r: RegionIter<'_>)
        ensures
            r.region() == self@,
            r.position() == 0,
    {
        RegionIter { region: self, index: 0 }
    }

    /// The seconds that the four bytes of a timestamp entry spell.
    pub fn get_u32_timestamp(&self, timestamp_bytes: [u8; 4]) -> (r: u32)
        ensures
            r == be32(timestamp_bytes@),
    {
        timestamp_bytes[0] as u32 * 16777216 + timestamp_bytes[1] as u32 * 65536
            + timestamp_bytes[2] as u32 * 256 + timestamp_bytes[3] as u32
    }
}

/// A walk over the chunks of a region, slot by slot: slot `i` belongs to the
/// chunk `(i % 32, i / 32)`.
#[derive(Debug, Clone, Copy, PartialEq, Eq, PartialOrd, Ord)]
pub struct RegionIter<'a> {
    region: &'a RegionReader<'a>,
    index: usize,
}

impl<'a> RegionIter<'a> {
    /// The number of chunks in one region.
    pub const MAX: usize = 32 * 32;

    /// The bytes of the region that is walked.
    pub closed spec fn region(&self) -> Seq<u8> {
        self.region@
    }

    /// The slot that `next` looks at.
    pub closed spec fn position(&self) -> int {
        self.index as int
    }

    /// The coordinate of the chunk in slot `index`.
    pub fn get_chunk_coordinate(index: usize) -> (r: (usize, usize))
        ensures
            r.0 == index % 32,
            r.1 == index / 32,
    {
        (index % 32, index / 32)
    }

    /// The chunk of the current slot, as `get_chunk` gives it, and a step to
    /// the next slot; `None` once all 1024 slots were seen. A defect in one
    /// slot does not end the walk.
    pub fn next(&mut self) -> (r: Option<Result<Option<RawChunk<'a>>, McaError>>)
        ensures
            final(self).region() == old(self).region(),
            old(self).position() < 1024 ==> final(self).position() == old(self).position() + 1
                && r is Some && reports(
                r->Some_0,
                lookup(
                    old(self).region(),
                    old(self).position() % 32,
                    old(self).position() / 32,
                ),
            ),
            old(self).position() >= 1024 ==> r is None
                && final(self).position() == old(self).position(),
    {
        if self.index < RegionIter::MAX {
            let (x, z) = RegionIter::get_chunk_coordinate(self.index);
            self.index += 1;
            let chunk = self.region.get_chunk(x, z);
            Some(chunk)
        } else {
            None
        }
    }
}

} // verus!

//! Collecting pending chunks and laying them out as one region.

use vstd::prelude::*;

use crate::chunk::{ChunkEntry, PendingChunk};
use crate::compression::CompressionType;
use crate::error::McaError;
use crate::format::{
    be32_bytes, fits, frame, frame_sector, in_region, lemma_fits_step, lemma_frame_start_prefix,
    lemma_payload_area_len, lemma_tables_step, location_bytes, location_table, payload_area, put,
    region_bytes, sector_count, slot_offset, timestamp_table, zeros, SECTOR_SIZE,
};

verus! {

/// The reason given where a chunk cannot be recorded in the format.
pub open spec fn oversize_reason() -> Seq<char> {
    "chunk exceeds the limits of the format"@
}

/// Whether `after` holds the chunks of `before` and behind them one chunk for
/// `coordinate`, which holds `raw`, compressed as `compression` says, and
/// `timestamp`.
pub open spec fn holds_one_more(
    before: Seq<ChunkEntry>,
    after: Seq<ChunkEntry>,
    raw: Seq<u8>,
    compression: CompressionType,
    timestamp: u32,
    coordinate: (u8, u8),
) -> bool {
    &&& after.len() == before.len() + 1
    &&& after.drop_last() == before
    &&& compression.encodes(raw, after.last().data)
    &&& after.last() == (ChunkEntry {
        data: after.last().data,
        compression,
        timestamp,
        coordinate,
    })
}

/// Appends `bytes` to `out`.
fn append(out: &mut Vec<u8>, bytes: &[u8])
    ensures
        final(out)@ == old(out)@ + bytes@,
{
    out.extend_from_slice(bytes);
    assert(out@ =~= old(out)@ + bytes@);
}

/// Appends `count` zero bytes to `out`.
fn append_zeros(out: &mut Vec<u8>, count: usize)
    ensures
        final(out)@ == old(out)@ + zeros(count as int),
{
    let mut done: usize = 0;
    while done < count
        invariant
            done <= count,
            out@ == old(out)@ + zeros(done as int),
        decreases count - done,
    {
        out.push(0);
        done += 1;
        assert(out@ =~= old(out)@ + zeros(done as int));
    }
}

/// Appends `value` to `out` in four bytes, most significant byte first.
fn append_be32(out: &mut Vec<u8>, value: u32)
    ensures
        final(out)@ == old(out)@ + be32_bytes(value as int),
{
    out.push((value / 16777216) as u8);
    out.push((value / 65536 % 256) as u8);
    out.push((value / 256 % 256) as u8);
    out.push((value % 256) as u8);
    assert(out@ =~= old(out)@ + be32_bytes(value as int));
}

/// Appends the frame of `chunk` to `out`.
fn append_frame(out: &mut Vec<u8>, chunk: &PendingChunk)
    requires
        chunk@.data.len() + 1 <= 0xFFFF_FFFF,
    ensures
        final(out)@ == old(out)@ + frame(chunk@),
{
    let len: u64 = chunk.compressed_data.len() as u64;
    append_be32(out, (len + 1) as u32);
    out.push(chunk.compression.to_u8());
    append(out, chunk.compressed_data.as_slice());
    append_zeros(out, ((4096 - (len + 5) % 4096) % 4096) as usize);
    assert(out@ =~= old(out)@ + frame(chunk@));
}

/// Writes four bytes over `table` from `offset` on.
fn overwrite(table: &mut Vec<u8>, offset: usize, b0: u8, b1: u8, b2: u8, b3: u8)
    requires
        offset + 4 <= old(table).len(),
    ensures
        final(table)@ == put(old(table)@, offset as int, seq![b0, b1, b2, b3]),
{
    table.set(offset, b0);
    table.set(offset + 1, b1);
    table.set(offset + 2, b2);
    table.set(offset + 3, b3);
    assert(table@ =~= put(old(table)@, offset as int, seq![b0, b1, b2, b3]));
}

/// The sector count that a location entry records for `len` compressed bytes.
fn count_sectors(len: usize) -> (r: u8)
    requires
        len + 1 <= 0xFFFF_FFFF,
    ensures
        r == sector_count(len as int),
{
    let sectors: u64 = (len as u64 + 5 + 4095) / 4096;
    if sectors > 255 {
        255
    } else {
        sectors as u8
    }
}

/// Records in both header tables the chunk `chunk`, whose frame starts at
/// `sector`; a chunk outside the region leaves the tables as they are.
fn record(locations: &mut Vec<u8>, timestamps: &mut Vec<u8>, chunk: &PendingChunk, sector: usize)
    requires
        old(locations).len() == 4096,
        old(timestamps).len() == 4096,
        chunk@.data.len() + 1 <= 0xFFFF_FFFF,
        sector <= 0xFF_FFFF,
    ensures
        in_region(chunk@.coordinate) ==> final(locations)@ == put(
            old(locations)@,
            slot_offset(chunk@.coordinate.0 as int, chunk@.coordinate.1 as int),
            location_bytes(sector as int, chunk@.data.len() as int),
        ) && final(timestamps)@ == put(
            old(timestamps)@,
            slot_offset(chunk@.coordinate.0 as int, chunk@.coordinate.1 as int),
            be32_bytes(chunk@.timestamp as int),
        ),
        !in_region(chunk@.coordinate) ==> final(locations)@ == old(locations)@
            && final(timestamps)@ == old(timestamps)@,
{
    if chunk.coordinate.0 < 32 && chunk.coordinate.1 < 32 {
        let slot: usize = 4 * (chunk.coordinate.0 as usize + chunk.coordinate.1 as usize * 32);
        let len: usize = chunk.compressed_data.len();
        let seconds: u32 = chunk.timestamp;
        let count: u8 = count_sectors(len);
        overwrite(
            locations,
            slot,
            (sector / 65536 % 256) as u8,
            (sector / 256 % 256) as u8,
            (sector % 256) as u8,
            count,
        );
        overwrite(
            timestamps,
            slot,
            (seconds / 16777216) as u8,
            (seconds / 65536 % 256) as u8,
            (seconds / 256 % 256) as u8,
            (seconds % 256) as u8,
        );
        proof {
            assert(seq![
                (sector / 65536 % 256) as u8,
                (sector / 256 % 256) as u8,
                (sector % 256) as u8,
                count,
            ] =~= location_bytes(sector as int, len as int));
            assert(seq![
                (seconds / 16777216) as u8,
                (seconds / 65536 % 256) as u8,
                (seconds / 256 % 256) as u8,
                (seconds % 256) as u8,
            ] =~= be32_bytes(seconds as int));
        }
    }
}

/// A writer that collects chunks and lays them out as one region.
#[derive(Debug, PartialEq, Eq, PartialOrd, Ord)]
pub struct RegionWriter {
    chunks: Vec<PendingChunk>,
}

impl View for RegionWriter {
    type V = Seq<ChunkEntry>;

    closed spec fn view(&self) -> Seq<ChunkEntry> {
        self.chunks@.map_values(|chunk: PendingChunk| chunk@)
    }
}

impl Clone for RegionWriter {
    fn clone(&self) -> (r: RegionWriter)
        ensures
            r@ == self@,
    {
        let r = RegionWriter { chunks: self.chunks.clone() };
        assert(r@ =~= self@);
        r
    }
}

impl Default for RegionWriter {
    fn default() -> (r: RegionWriter)
        ensures
            r@ == Seq::<ChunkEntry>::empty(),
    {
        RegionWriter::new()
    }
}

impl RegionWriter {
    /// A writer without chunks.
    pub fn new() -> (r: RegionWriter)
        ensures
            r@ == Seq::<ChunkEntry>::empty(),
    {
        let r = RegionWriter { chunks: Vec::new() };
        assert(r@ =~= Seq::<ChunkEntry>::empty());
        r
    }

    /// Compresses `raw_data` with LZ4 and adds it as the chunk at
    /// `coordinate`, with `timestamp` as its time of modification. This always
    /// succeeds.
    pub fn push_chunk(&mut self, raw_data: &[u8], coordinate: (u8, u8), timestamp: u32) -> (r:
        Result<(), McaError>)
        requires
            coordinate.0 < 32,
            coordinate.1 < 32,
        ensures
            r is Ok,
            holds_one_more(
                old(self)@,
                final(self)@,
                raw_data@,
                CompressionType::LZ4,
                timestamp,
                coordinate,
            ),
    {
        self.push_chunk_with_compression(raw_data, coordinate, CompressionType::LZ4, timestamp)
    }

    /// Compresses `raw_data` as `compression_type` says and adds it as the
    /// chunk at `coordinate`, with `timestamp` as its time of modification.
    /// This succeeds for every compression type with an algorithm. The others
    /// are refused with `UnsupportedCompression`, and the writer stays as it
    /// was.
    pub fn push_chunk_with_compression(
        &mut self,
        raw_data: &[u8],
        coordinate: (u8, u8),
        compression_type: CompressionType,
        timestamp: u32,
    ) -> (r: Result<(), McaError>)
        requires
            coordinate.0 < 32,
            coordinate.1 < 32,
        ensures
            compression_type.supported() ==> r is Ok && holds_one_more(
                old(self)@,
                final(self)@,
                raw_data@,
                compression_type,
                timestamp,
                coordinate,
            ),
            !compression_type.supported() ==> r is Err && r->Err_0
                == McaError::UnsupportedCompression(compression_type) && final(self)@
                == old(self)@,
    {
        match PendingChunk::new(raw_data, compression_type, timestamp, coordinate) {
            Ok(chunk) => {
                self.push_pending_chunk(chunk);
                assert(self@.drop_last() =~= old(self)@);
                Ok(())
            },
            Err(e) => Err(e),
        }
    }

    /// Adds `chunk` behind the chunks that the writer holds.
    pub fn push_pending_chunk(&mut self, chunk: PendingChunk)
        ensures
            final(self)@ == old(self)@.push(chunk@),
    {
        self.chunks.push(chunk);
        assert(self@ =~= old(self)@.push(chunk@));
    }

    /// Appends to `w` the region that holds the chunks of the writer: the
    /// location table, the timestamp table, then one frame per chunk in the
    /// order in which the chunks were added. Where two chunks have one
    /// coordinate, both tables speak of the later one. A chunk whose
    /// coordinate lies outside the region gets its frame and no table entry.
    ///
    /// Where the format cannot record a chunk, nothing is written and the
    /// error `InvalidChunkPayload` says so.
    pub fn write(&self, w: &mut Vec<u8>) -> (r: Result<(), McaError>)
        ensures
            fits(self@) ==> r is Ok && final(w)@ == old(w)@ + region_bytes(self@),
            !fits(self@) ==> r is Err && final(w)@ == old(w)@,
            r matches Err(e) ==> e matches McaError::InvalidChunkPayload(reason) && reason@
                == oversize_reason(),
    {
        let ghost entries = self@;
        let mut locations: Vec<u8> = Vec::new();
        append_zeros(&mut locations, SECTOR_SIZE);
        let mut timestamps: Vec<u8> = Vec::new();
        append_zeros(&mut timestamps, SECTOR_SIZE);
        let mut payloads: Vec<u8> = Vec::new();
        proof {
            assert(entries.take(0) =~= Seq::<ChunkEntry>::empty());
            assert(locations@ =~= location_table(entries.take(0)));
            assert(timestamps@ =~= timestamp_table(entries.take(0)));
        }
        let mut i: usize = 0;
        while i < self.chunks.len()
            invariant
                i <= self.chunks.len(),
                entries == self@,
                entries.len() == self.chunks.len(),
                locations.len() == 4096,
                timestamps.len() == 4096,
                locations@ == location_table(entries.take(i as int)),
                timestamps@ == timestamp_table(entries.take(i as int)),
                payloads@ == payload_area(entries.take(i as int)),
                fits(entries.take(i as int)),
                *w == *old(w),
            decreases self.chunks.len() - i,
        {
            let chunk: &PendingChunk = &self.chunks[i];
            let len: usize = chunk.compressed_data.len();
            let sector: usize = 2 + payloads.len() / SECTOR_SIZE;
            proof {
                assert(entries[i as int] == chunk@);
                lemma_payload_area_len(entries.take(i as int));
                lemma_frame_start_prefix(entries, i as int, i as int);
                assert(sector == frame_sector(entries, i as int));
            }
            if len as u64 >= 0xFFFF_FFFF || sector > 0xFF_FFFF {
                return Err(
                    McaError::InvalidChunkPayload(
                        "chunk exceeds the limits of the format".to_owned(),
                    ),
                );
            }
            append_frame(&mut payloads, chunk);
            record(&mut locations, &mut timestamps, chunk, sector);
            proof {
                lemma_tables_step(entries, i as int);
                lemma_fits_step(entries, i as int);
                assert(entries.take(i + 1).drop_last() =~= entries.take(i as int));
            }
            i += 1;
        }
        proof {
            assert(entries.take(i as int) =~= entries);
        }
        append(w, locations.as_slice());
        append(w, timestamps.as_slice());
        append(w, payloads.as_slice());
        assert(w@ =~= old(w)@ + region_bytes(entries));
        Ok(())
    }
}

} // verus!

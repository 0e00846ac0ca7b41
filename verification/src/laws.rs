//! What holds between the functions of the library: what a reader finds in a
//! region that a writer laid out, and what it finds in buffers that no writer
//! made.

use vstd::prelude::*;

use crate::chunk::ChunkEntry;
use crate::compression::{compression_of, valid_tag, CompressionType};
use crate::format::{
    be24, be24_bytes, be32, be32_bytes, fits, frame, frame_at, frame_len, frame_sector,
    frame_start, latest, lemma_frame_len, lemma_frame_start_aligned, lemma_frame_start_prefix,
    lemma_latest, lemma_padding, lemma_payload_area_len, location_at, location_bytes,
    location_entry, location_table, lookup, payload_area, region_bytes, sector_count, sectors_of,
    slot_offset, timestamp_at, timestamp_entry, timestamp_table, ChunkLookup,
};

verus! {

/// Two coordinates inside the region never share a slot.
pub proof fn lemma_slot_offset_injective(x1: int, z1: int, x2: int, z2: int)
    requires
        0 <= x1 < 32,
        0 <= z1 < 32,
        0 <= x2 < 32,
        0 <= z2 < 32,
        slot_offset(x1, z1) == slot_offset(x2, z2),
    ensures
        x1 == x2,
        z1 == z2,
{
}

/// Four bytes spell the number they were made from.
pub proof fn lemma_be32_of_bytes(value: int)
    requires
        0 <= value <= 0xFFFF_FFFF,
    ensures
        be32_bytes(value).len() == 4,
        be32(be32_bytes(value)) == value,
{
    let v = value as u32;
    assert(v == (v / 16777216 % 256) * 16777216 + (v / 65536 % 256) * 65536 + (v / 256 % 256) * 256
        + v % 256) by (bit_vector);
}

/// Three bytes spell the number they were made from.
pub proof fn lemma_be24_of_bytes(value: int)
    requires
        0 <= value <= 0xFF_FFFF,
    ensures
        be24_bytes(value).len() == 3,
        be24(be24_bytes(value)) == value,
{
    let v = value as u32;
    assert(v <= 0xFF_FFFF ==> v == (v / 65536 % 256) * 65536 + (v / 256 % 256) * 256 + v % 256)
        by (bit_vector);
}

/// The tag of a compression type is valid and leads back to it.
pub proof fn lemma_tag_of_compression(compression: CompressionType)
    ensures
        valid_tag(compression.tag()),
        compression_of(compression.tag()) == compression,
{
}

/// A valid tag is the tag of the compression type it leads to, so tags and
/// compression types correspond one to one.
pub proof fn lemma_compression_of_tag(tag: u8)
    requires
        valid_tag(tag),
    ensures
        compression_of(tag).tag() == tag,
{
}

/// Decompressing gives back what was compressed, under every compression
/// type. For `Zlib` and `LZ4` this rests on what is stated of the outside
/// codecs; without compression it holds by itself.
pub proof fn lemma_codec_round_trip(compression: CompressionType, data: Seq<u8>, out: Seq<u8>)
    requires
        compression.encodes(data, out),
    ensures
        compression.supported(),
        compression.decoded(out) == Some(data),
{
}

/// Without compression, the bytes stand for themselves.
pub proof fn lemma_uncompressed_round_trip(data: Seq<u8>)
    ensures
        CompressionType::Uncompressed.encodes(data, data),
        CompressionType::Uncompressed.decoded(data) == Some(data),
{
}

/// A part of the first of two joined sequences is that part of the whole, and
/// the second one follows the first.
proof fn lemma_parts_of_joined(first: Seq<u8>, second: Seq<u8>, from: int, to: int)
    requires
        0 <= from <= to <= first.len(),
    ensures
        (first + second).subrange(from, to) == first.subrange(from, to),
        (first + second).subrange(first.len() as int, (first.len() + second.len()) as int)
            == second,
{
    let joined = first + second;
    assert(joined.subrange(from, to) =~= first.subrange(from, to));
    assert(joined.subrange(first.len() as int, (first.len() + second.len()) as int) =~= second);
}

/// The payload area holds the frame of entry `i` at the offset of that frame.
pub proof fn lemma_frame_in_payload_area(entries: Seq<ChunkEntry>, i: int)
    requires
        0 <= i < entries.len(),
    ensures
        0 <= frame_start(entries, i),
        frame_start(entries, i) + frame_len(entries[i]) <= payload_area(entries).len(),
        payload_area(entries).subrange(
            frame_start(entries, i),
            frame_start(entries, i) + frame_len(entries[i]),
        ) == frame(entries[i]),
    decreases entries.len(),
{
    let n = entries.len() as int;
    let rest = entries.drop_last();
    let before = payload_area(rest);
    let last = frame(entries.last());
    assert(payload_area(entries) == before + last);
    assert(before.len() == frame_start(entries, n - 1)) by {
        lemma_payload_area_len(rest);
        lemma_frame_start_prefix(entries, n - 1, n - 1);
    }
    assert(last.len() == frame_len(entries[n - 1])) by {
        lemma_frame_len(entries.last());
    }
    if i == n - 1 {
        lemma_parts_of_joined(before, last, 0, 0);
    } else {
        lemma_frame_in_payload_area(rest, i);
        assert(frame_start(rest, i) == frame_start(entries, i)) by {
            lemma_frame_start_prefix(entries, n - 1, i);
        }
        assert(rest[i] == entries[i]);
        lemma_parts_of_joined(
            before,
            last,
            frame_start(entries, i),
            frame_start(entries, i) + frame_len(entries[i]),
        );
    }
}

/// A reader that meets the frame of an entry finds the entry: its compressed
/// bytes and its compression type.
pub proof fn lemma_frame_read_back(data: Seq<u8>, start: int, entry: ChunkEntry)
    requires
        0 <= start,
        start + frame_len(entry) <= data.len(),
        data.subrange(start, start + frame_len(entry)) == frame(entry),
        entry.data.len() + 1 <= 0xFFFF_FFFF,
    ensures
        frame_at(data, start) == (ChunkLookup::Present {
            compression: entry.compression,
            data: entry.data,
        }),
{
    let len = entry.data.len() as int;
    let written = data.subrange(start, start + frame_len(entry));
    lemma_frame_len(entry);
    lemma_be32_of_bytes(len + 1);
    lemma_tag_of_compression(entry.compression);
    assert(data.subrange(start, start + 4) =~= written.subrange(0, 4));
    assert(written.subrange(0, 4) =~= be32_bytes(len + 1));
    assert(data[start + 4] == written[4]);
    assert(written[4] == entry.compression.tag());
    assert(data.subrange(start + 5, start + 4 + (len + 1)) =~= written.subrange(5, 5 + len));
    assert(written.subrange(5, 5 + len) =~= entry.data);
}

/// A written region holds the frame of entry `i` behind the two header
/// tables, at the offset of that frame.
pub proof fn lemma_frame_in_region(entries: Seq<ChunkEntry>, i: int)
    requires
        0 <= i < entries.len(),
    ensures
        region_bytes(entries).len() == 8192 + payload_area(entries).len(),
        0 <= frame_start(entries, i),
        8192 + frame_start(entries, i) + frame_len(entries[i]) <= region_bytes(entries).len(),
        region_bytes(entries).subrange(
            8192 + frame_start(entries, i),
            8192 + frame_start(entries, i) + frame_len(entries[i]),
        ) == frame(entries[i]),
{
    lemma_frame_in_payload_area(entries, i);
    let tables = location_table(entries) + timestamp_table(entries);
    let area = payload_area(entries);
    let from = frame_start(entries, i);
    let to = from + frame_len(entries[i]);
    assert(tables.len() == 8192);
    assert((tables + area).subrange(8192 + from, 8192 + to) =~= area.subrange(from, to));
}

/// In a written region, the slot of the chunk `(x, z)` holds its location
/// entry in the first table and its timestamp entry in the second.
pub proof fn lemma_slots_of_region(entries: Seq<ChunkEntry>, x: int, z: int)
    requires
        0 <= x < 32,
        0 <= z < 32,
    ensures
        region_bytes(entries).len() == 8192 + payload_area(entries).len(),
        region_bytes(entries).subrange(slot_offset(x, z), slot_offset(x, z) + 4) == location_entry(
            entries,
            x,
            z,
        ),
        region_bytes(entries).subrange(4096 + slot_offset(x, z), 4096 + slot_offset(x, z) + 4)
            == timestamp_entry(entries, x, z),
{
    let slot = slot_offset(x, z);
    let region = region_bytes(entries);
    lemma_entry_len(entries, x, z);
    let location = region.subrange(slot, slot + 4);
    let timestamp = region.subrange(4096 + slot, 4096 + slot + 4);
    assert forall|d: int| 0 <= d < 4 implies #[trigger] location[d] == location_entry(
        entries,
        x,
        z,
    )[d] by {
        let k = slot + d;
        assert(k / 4 % 32 == x && k / 128 == z && k % 4 == d);
        assert(region[k] == location_table(entries)[k]);
    }
    assert forall|d: int| 0 <= d < 4 implies #[trigger] timestamp[d] == timestamp_entry(
        entries,
        x,
        z,
    )[d] by {
        let k = slot + d;
        assert(k / 4 % 32 == x && k / 128 == z && k % 4 == d);
        assert(region[4096 + k] == timestamp_table(entries)[k]);
    }
    assert(location =~= location_entry(entries, x, z));
    assert(timestamp =~= timestamp_entry(entries, x, z));
}

/// Every header entry has four bytes.
pub proof fn lemma_entry_len(entries: Seq<ChunkEntry>, x: int, z: int)
    ensures
        location_entry(entries, x, z).len() == 4,
        timestamp_entry(entries, x, z).len() == 4,
{
    match latest(entries, (x as u8, z as u8)) {
        Some(i) => {
            assert(be24_bytes(frame_sector(entries, i)).len() == 3);
            assert(be32_bytes(entries[i].timestamp as int).len() == 4);
        },
        None => {},
    }
}

/// The location entry of a chunk that was added is not empty and names the
/// sector at which the frame of the chunk starts.
pub proof fn lemma_location_read_back(entries: Seq<ChunkEntry>, x: int, z: int)
    requires
        fits(entries),
        0 <= x < 32,
        0 <= z < 32,
        latest(entries, (x as u8, z as u8)) is Some,
    ensures
        location_entry(entries, x, z).len() == 4,
        !(location_entry(entries, x, z)[0] == 0 && location_entry(entries, x, z)[3] == 0),
        be24(location_entry(entries, x, z)) == frame_sector(
            entries,
            latest(entries, (x as u8, z as u8))->Some_0,
        ),
{
    let i = latest(entries, (x as u8, z as u8))->Some_0;
    lemma_latest(entries, (x as u8, z as u8));
    lemma_entry_len(entries, x, z);
    let sector = frame_sector(entries, i);
    let len = entries[i].data.len() as int;
    lemma_frame_start_aligned(entries, i);
    lemma_be24_of_bytes(sector);
    let location = location_entry(entries, x, z);
    assert(location == location_bytes(sector, len));
    assert(location[0] == be24_bytes(sector)[0]);
    assert(location[1] == be24_bytes(sector)[1]);
    assert(location[2] == be24_bytes(sector)[2]);
    assert(location[3] == sector_count(len) as u8);
    assert(1 <= sector_count(len) <= 255);
}

/// A reader finds in a written region, for every coordinate inside the
/// region, the chunk that was added last for that coordinate, with its bytes
/// and its compression type, and finds the slot empty where no chunk was
/// added for it.
pub proof fn lemma_read_back(entries: Seq<ChunkEntry>, x: int, z: int)
    requires
        fits(entries),
        0 <= x < 32,
        0 <= z < 32,
    ensures
        lookup(region_bytes(entries), x, z) == match latest(entries, (x as u8, z as u8)) {
            Some(i) => ChunkLookup::Present {
                compression: entries[i].compression,
                data: entries[i].data,
            },
            None => ChunkLookup::Absent,
        },
{
    let region = region_bytes(entries);
    let slot = slot_offset(x, z);
    lemma_slots_of_region(entries, x, z);
    lemma_entry_len(entries, x, z);
    lemma_latest(entries, (x as u8, z as u8));
    match latest(entries, (x as u8, z as u8)) {
        Some(i) => {
            lemma_location_read_back(entries, x, z);
            let location = location_entry(entries, x, z);
            assert(region[slot] == region.subrange(slot, slot + 4)[0]);
            assert(region[slot + 3] == region.subrange(slot, slot + 4)[3]);
            assert(location_at(region, slot) == Some(location));
            lemma_frame_start_aligned(entries, i);
            let start = frame_sector(entries, i) * 4096;
            assert(start == 8192 + frame_start(entries, i));
            lemma_frame_in_region(entries, i);
            lemma_frame_read_back(region, start, entries[i]);
        },
        None => {
            let location = location_entry(entries, x, z);
            assert(region[slot] == region.subrange(slot, slot + 4)[0]);
            assert(region[slot + 3] == region.subrange(slot, slot + 4)[3]);
            assert(location[0] == 0 && location[3] == 0);
        },
    }
}

/// In a written region, the timestamp entry of every coordinate inside the
/// region spells the timestamp of the chunk that was added last for that
/// coordinate, and zero where no chunk was added for it.
pub proof fn lemma_timestamp_read_back(entries: Seq<ChunkEntry>, x: int, z: int)
    requires
        0 <= x < 32,
        0 <= z < 32,
    ensures
        timestamp_at(region_bytes(entries), slot_offset(x, z)) == Some(
            timestamp_entry(entries, x, z),
        ),
        be32(timestamp_entry(entries, x, z)) == match latest(entries, (x as u8, z as u8)) {
            Some(i) => entries[i].timestamp as int,
            None => 0,
        },
{
    lemma_slots_of_region(entries, x, z);
    match latest(entries, (x as u8, z as u8)) {
        Some(i) => {
            lemma_be32_of_bytes(entries[i].timestamp as int);
        },
        None => {},
    }
}

/// Every frame takes a whole number of sectors, padding included, and starts
/// at a sector boundary of the payload area.
pub proof fn lemma_frames_fill_sectors(entries: Seq<ChunkEntry>, i: int)
    requires
        0 <= i < entries.len(),
    ensures
        frame(entries[i]).len() % 4096 == 0,
        frame_start(entries, i) % 4096 == 0,
        payload_area(entries).len() % 4096 == 0,
{
    lemma_frame_len(entries[i]);
    lemma_frame_start_aligned(entries, i);
    lemma_frame_start_aligned(entries, entries.len() as int);
    lemma_payload_area_len(entries);
}

/// A frame takes the sectors that its length, its tag and its bytes need and
/// no more, and the sector count of its location entry is the number of these
/// sectors, or 255 where there are more.
pub proof fn lemma_sector_count(entry: ChunkEntry)
    ensures
        frame(entry).len() == 4096 * sectors_of(entry.data.len() + 5 as int),
        frame(entry).len() < entry.data.len() + 5 + 4096,
        sector_count(entry.data.len() as int) == if frame(entry).len() / 4096 > 255 {
            255
        } else {
            frame(entry).len() as int / 4096
        },
        1 <= sector_count(entry.data.len() as int) <= 255,
{
    lemma_frame_len(entry);
    lemma_padding(entry.data.len() + 5 as int);
}

/// The location entry of a chunk records the sector at which the frame of
/// that chunk starts: the two sectors of the header tables, and one more for
/// every 4096 bytes of the frames before it.
pub proof fn lemma_recorded_sector(entries: Seq<ChunkEntry>, x: int, z: int)
    requires
        fits(entries),
        0 <= x < 32,
        0 <= z < 32,
        latest(entries, (x as u8, z as u8)) is Some,
    ensures
        be24(location_entry(entries, x, z)) == 2 + frame_start(
            entries,
            latest(entries, (x as u8, z as u8))->Some_0,
        ) / 4096,
{
    lemma_location_read_back(entries, x, z);
}

/// Where the location table holds only zero bytes, every chunk is absent,
/// whatever follows the table.
pub proof fn lemma_empty_header(data: Seq<u8>, x: int, z: int)
    requires
        data.len() >= 8192,
        forall|k: int| 0 <= k < 4096 ==> data[k] == 0,
    ensures
        lookup(data, x, z) == ChunkLookup::Absent,
{
}

/// Where a location entry names a sector that starts at or behind the end of
/// the buffer, or less than four bytes before it, the chunk is reported as a
/// frame whose length lies outside the buffer.
pub proof fn lemma_sector_beyond_buffer(data: Seq<u8>, x: int, z: int)
    requires
        location_at(data, slot_offset(x, z)) is Some,
        be24(location_at(data, slot_offset(x, z))->Some_0) * 4096 + 4 > data.len(),
    ensures
        lookup(data, x, z) == ChunkLookup::PrefixOutOfBounds,
{
}

} // verus!

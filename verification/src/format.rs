//! The byte layout of a region, as functions on sequences of bytes.
//!
//! A region starts with the location table (4096 bytes) and the timestamp
//! table (4096 bytes). Both hold one slot of four bytes per chunk. The payload
//! frames follow, each aligned to a sector of 4096 bytes. All integers are
//! big-endian.

use vstd::prelude::*;

use crate::chunk::ChunkEntry;
use crate::compression::{compression_of, valid_tag, CompressionType};

verus! {

/// The alignment unit of the header tables and of the payload frames.
pub const SECTOR_SIZE: usize = 4096;

/// The two header tables together.
pub const HEADER_SIZE: usize = 8192;

/// Byte offset of the slot of chunk `(x, z)` inside a header table. Only the
/// low five bits of each component count.
pub open spec fn slot_offset(x: int, z: int) -> int {
    4 * ((x % 32) + (z % 32) * 32)
}

/// The number that three bytes spell, most significant byte first.
pub open spec fn be24(bytes: Seq<u8>) -> int {
    bytes[0] * 65536 + bytes[1] * 256 + bytes[2]
}

/// The number that four bytes spell, most significant byte first.
pub open spec fn be32(bytes: Seq<u8>) -> int {
    bytes[0] * 16777216 + bytes[1] * 65536 + bytes[2] * 256 + bytes[3]
}

/// The location entry at `offset`: its four bytes, or `None` where the slot
/// is empty (first and last byte zero) or lies outside the buffer.
pub open spec fn location_at(data: Seq<u8>, offset: int) -> Option<Seq<u8>> {
    if 0 <= offset && offset + 4 <= data.len() && !(data[offset] == 0 && data[offset + 3] == 0) {
        Some(data.subrange(offset, offset + 4))
    } else {
        None
    }
}

/// The timestamp entry at `offset` in the second table: its four bytes, or
/// `None` where they lie outside the buffer.
pub open spec fn timestamp_at(data: Seq<u8>, offset: int) -> Option<Seq<u8>> {
    if 0 <= offset && 4096 + offset + 4 <= data.len() {
        Some(data.subrange(4096 + offset, 4096 + offset + 4))
    } else {
        None
    }
}

/// What a region holds for one coordinate.
pub enum ChunkLookup {
    /// The slot is empty: the chunk was never generated.
    Absent,
    /// A well-formed frame.
    Present { compression: CompressionType, data: Seq<u8> },
    /// The four bytes of the frame's length lie outside the buffer.
    PrefixOutOfBounds,
    /// The frame states the length zero, so it has no room for its tag.
    EmptyPayload,
    /// The frame's bytes, as its length states them, lie outside the buffer.
    PayloadOutOfBounds,
    /// The frame's tag names no compression type.
    UnknownCompression(u8),
}

/// The frame that starts at byte `start` of `data`: four bytes of length,
/// which count the tag and the compressed bytes, then the tag, then the
/// compressed bytes.
pub open spec fn frame_at(data: Seq<u8>, start: int) -> ChunkLookup {
    if data.len() < start + 4 {
        ChunkLookup::PrefixOutOfBounds
    } else {
        let length = be32(data.subrange(start, start + 4));
        if length == 0 {
            ChunkLookup::EmptyPayload
        } else if data.len() < start + 4 + length {
            ChunkLookup::PayloadOutOfBounds
        } else if !valid_tag(data[start + 4]) {
            ChunkLookup::UnknownCompression(data[start + 4])
        } else {
            ChunkLookup::Present {
                compression: compression_of(data[start + 4]),
                data: data.subrange(start + 5, start + 4 + length),
            }
        }
    }
}

/// What `data` holds for the chunk `(x, z)`: the frame at the sector that the
/// location entry names, unless the slot is empty.
pub open spec fn lookup(data: Seq<u8>, x: int, z: int) -> ChunkLookup {
    match location_at(data, slot_offset(x, z)) {
        None => ChunkLookup::Absent,
        Some(location) => frame_at(data, be24(location) * 4096),
    }
}

/// The three bytes that spell `value`, most significant byte first.
pub open spec fn be24_bytes(value: int) -> Seq<u8> {
    seq![(value / 65536 % 256) as u8, (value / 256 % 256) as u8, (value % 256) as u8]
}

/// The four bytes that spell `value`, most significant byte first.
pub open spec fn be32_bytes(value: int) -> Seq<u8> {
    seq![
        (value / 16777216 % 256) as u8,
        (value / 65536 % 256) as u8,
        (value / 256 % 256) as u8,
        (value % 256) as u8,
    ]
}

/// `count` zero bytes.
pub open spec fn zeros(count: int) -> Seq<u8> {
    Seq::new(count as nat, |i: int| 0u8)
}

/// The zero bytes that follow a frame body of `body` bytes: as many as bring
/// the frame to a sector boundary, and none where the body ends on one.
pub open spec fn padding(body: int) -> int {
    (4096 - body % 4096) % 4096
}

/// The sectors that `body` bytes take.
pub open spec fn sectors_of(body: int) -> int {
    (body + 4095) / 4096
}

/// The bytes that a frame takes in the payload area, padding included.
pub open spec fn frame_len(entry: ChunkEntry) -> int {
    entry.data.len() + 5 + padding(entry.data.len() + 5 as int)
}

/// The frame of a chunk: the length of tag and compressed bytes together in
/// four bytes, the tag, the compressed bytes, and the padding.
pub open spec fn frame(entry: ChunkEntry) -> Seq<u8> {
    be32_bytes(entry.data.len() + 1 as int) + seq![entry.compression.tag()] + entry.data + zeros(
        padding(entry.data.len() + 5 as int),
    )
}

/// The payload area: the frames of all entries, in the order of the entries.
pub open spec fn payload_area(entries: Seq<ChunkEntry>) -> Seq<u8>
    decreases entries.len(),
{
    if entries.len() == 0 {
        Seq::empty()
    } else {
        payload_area(entries.drop_last()) + frame(entries.last())
    }
}

/// The byte offset of frame `i` inside the payload area: the lengths of the
/// frames before it.
pub open spec fn frame_start(entries: Seq<ChunkEntry>, i: int) -> int
    decreases i,
{
    if i <= 0 {
        0
    } else {
        frame_start(entries, i - 1) + frame_len(entries[i - 1])
    }
}

/// The sector at which frame `i` starts, counted from the start of the
/// region: the two header tables take the sectors 0 and 1.
pub open spec fn frame_sector(entries: Seq<ChunkEntry>, i: int) -> int {
    2 + frame_start(entries, i) / 4096
}

/// The sector count that a location entry records for `len` compressed bytes:
/// the sectors that length, tag and bytes take, and 255 where that is more
/// than one byte can hold.
pub open spec fn sector_count(len: int) -> int {
    let sectors = sectors_of(len + 5);
    if sectors > 255 {
        255
    } else {
        sectors
    }
}

/// Whether the format can record every frame: each length fits its four
/// bytes, and each starting sector fits its three bytes.
pub open spec fn fits(entries: Seq<ChunkEntry>) -> bool {
    forall|i: int|
        0 <= i < entries.len() ==> (#[trigger] entries[i]).data.len() + 1 <= 0xFFFF_FFFF
            && frame_sector(entries, i) <= 0xFF_FFFF
}

/// The index of the last entry for `coordinate`, if there is one.
pub open spec fn latest(entries: Seq<ChunkEntry>, coordinate: (u8, u8)) -> Option<int>
    decreases entries.len(),
{
    if entries.len() == 0 {
        None
    } else if entries.last().coordinate == coordinate {
        Some(entries.len() - 1)
    } else {
        latest(entries.drop_last(), coordinate)
    }
}

/// The location entry of the frame that starts at `sector` and holds `len`
/// compressed bytes.
pub open spec fn location_bytes(sector: int, len: int) -> Seq<u8> {
    be24_bytes(sector) + seq![sector_count(len) as u8]
}

/// The location entry of the chunk `(x, z)`: that of the last entry for the
/// coordinate, and four zero bytes where there is none.
pub open spec fn location_entry(entries: Seq<ChunkEntry>, x: int, z: int) -> Seq<u8> {
    match latest(entries, (x as u8, z as u8)) {
        Some(i) => location_bytes(frame_sector(entries, i), entries[i].data.len() as int),
        None => zeros(4),
    }
}

/// The timestamp entry of the chunk `(x, z)`: the timestamp of the last entry
/// for the coordinate, and four zero bytes where there is none.
pub open spec fn timestamp_entry(entries: Seq<ChunkEntry>, x: int, z: int) -> Seq<u8> {
    match latest(entries, (x as u8, z as u8)) {
        Some(i) => be32_bytes(entries[i].timestamp as int),
        None => zeros(4),
    }
}

/// The location table: byte `k` belongs to the slot of the chunk
/// `(k / 4 % 32, k / 128)`.
pub open spec fn location_table(entries: Seq<ChunkEntry>) -> Seq<u8> {
    Seq::new(4096, |k: int| location_entry(entries, k / 4 % 32, k / 128)[k % 4])
}

/// The timestamp table, with the slots of the location table.
pub open spec fn timestamp_table(entries: Seq<ChunkEntry>) -> Seq<u8> {
    Seq::new(4096, |k: int| timestamp_entry(entries, k / 4 % 32, k / 128)[k % 4])
}

/// The region that holds `entries`: location table, timestamp table, payload
/// area.
pub open spec fn region_bytes(entries: Seq<ChunkEntry>) -> Seq<u8> {
    location_table(entries) + timestamp_table(entries) + payload_area(entries)
}

/// `table` with `entry` written over the bytes from `offset` on.
pub open spec fn put(table: Seq<u8>, offset: int, entry: Seq<u8>) -> Seq<u8> {
    Seq::new(
        table.len(),
        |k: int|
            if offset <= k < offset + entry.len() {
                entry[k - offset]
            } else {
                table[k]
            },
    )
}

/// Whether a coordinate lies inside the region.
pub open spec fn in_region(coordinate: (u8, u8)) -> bool {
    coordinate.0 < 32 && coordinate.1 < 32
}

/// Frames before `i` are the same in every prefix that reaches `i`.
pub proof fn lemma_frame_start_prefix(entries: Seq<ChunkEntry>, n: int, i: int)
    requires
        0 <= i <= n <= entries.len(),
    ensures
        frame_start(entries.take(n), i) == frame_start(entries, i),
    decreases i,
{
    if i > 0 {
        lemma_frame_start_prefix(entries, n, i - 1);
    }
}

/// Every frame starts at a sector boundary.
pub proof fn lemma_frame_start_aligned(entries: Seq<ChunkEntry>, i: int)
    requires
        0 <= i <= entries.len(),
    ensures
        frame_start(entries, i) % 4096 == 0,
        frame_start(entries, i) >= 0,
    decreases i,
{
    if i > 0 {
        lemma_frame_start_aligned(entries, i - 1);
    }
}

/// The padding is less than a sector and ends at a sector boundary: body and
/// padding together take the sectors that the body alone takes.
pub proof fn lemma_padding(body: int)
    requires
        body >= 0,
    ensures
        0 <= padding(body) < 4096,
        body + padding(body) == 4096 * sectors_of(body),
{
}

/// Every frame takes a whole number of sectors: those that its length, its
/// tag and its bytes take, and no more.
pub proof fn lemma_frame_len(entry: ChunkEntry)
    ensures
        frame(entry).len() == frame_len(entry),
        frame_len(entry) == 4096 * sectors_of(entry.data.len() + 5 as int),
        frame_len(entry) % 4096 == 0,
        frame_len(entry) >= entry.data.len() + 5,
{
    let body = entry.data.len() + 5 as int;
    lemma_padding(body);
    assert(be32_bytes(entry.data.len() + 1 as int).len() == 4);
    assert(zeros(padding(body)).len() == padding(body));
}

/// The payload area ends where the frame after the last one would start.
pub proof fn lemma_payload_area_len(entries: Seq<ChunkEntry>)
    ensures
        payload_area(entries).len() == frame_start(entries, entries.len() as int),
    decreases entries.len(),
{
    if entries.len() > 0 {
        let n = entries.len() as int;
        lemma_payload_area_len(entries.drop_last());
        lemma_frame_start_prefix(entries, n - 1, n - 1);
        lemma_frame_len(entries.last());
    }
}

/// Where `latest` finds an entry, it has the coordinate and no later entry
/// has it; where it finds none, no entry has the coordinate.
pub proof fn lemma_latest(entries: Seq<ChunkEntry>, coordinate: (u8, u8))
    ensures
        match latest(entries, coordinate) {
            Some(i) => {
                &&& 0 <= i < entries.len()
                &&& entries[i].coordinate == coordinate
                &&& forall|j: int|
                    i < j < entries.len() ==> (#[trigger] entries[j]).coordinate != coordinate
            },
            None => forall|j: int|
                0 <= j < entries.len() ==> (#[trigger] entries[j]).coordinate != coordinate,
        },
    decreases entries.len(),
{
    if entries.len() > 0 && entries.last().coordinate != coordinate {
        let rest = entries.drop_last();
        lemma_latest(rest, coordinate);
        assert forall|j: int| 0 <= j < rest.len() implies #[trigger] entries[j] == rest[j] by {}
    }
}

/// One more entry is the latest for its own coordinate and changes nothing
/// for the others.
pub proof fn lemma_latest_step(entries: Seq<ChunkEntry>, i: int, coordinate: (u8, u8))
    requires
        0 <= i < entries.len(),
    ensures
        latest(entries.take(i + 1), coordinate) == if entries[i].coordinate == coordinate {
            Some(i)
        } else {
            latest(entries.take(i), coordinate)
        },
{
    assert(entries.take(i + 1).drop_last() =~= entries.take(i));
}

/// One more entry takes over the two header entries of its own coordinate
/// and changes none of the others.
pub proof fn lemma_entry_step(entries: Seq<ChunkEntry>, i: int, x: int, z: int)
    requires
        0 <= i < entries.len(),
        0 <= x < 32,
        0 <= z < 32,
    ensures
        location_entry(entries.take(i + 1), x, z) == if entries[i].coordinate == (
            x as u8,
            z as u8,
        ) {
            location_bytes(frame_sector(entries, i), entries[i].data.len() as int)
        } else {
            location_entry(entries.take(i), x, z)
        },
        timestamp_entry(entries.take(i + 1), x, z) == if entries[i].coordinate == (
            x as u8,
            z as u8,
        ) {
            be32_bytes(entries[i].timestamp as int)
        } else {
            timestamp_entry(entries.take(i), x, z)
        },
{
    let coordinate = (x as u8, z as u8);
    lemma_latest_step(entries, i, coordinate);
    if entries[i].coordinate == coordinate {
        lemma_frame_start_prefix(entries, i + 1, i);
    } else {
        lemma_latest(entries.take(i), coordinate);
        match latest(entries.take(i), coordinate) {
            Some(j) => {
                lemma_frame_start_prefix(entries, i + 1, j);
                lemma_frame_start_prefix(entries, i, j);
            },
            None => {},
        }
    }
}

/// One more entry overwrites its own slot in both header tables, if its
/// coordinate lies inside the region, and leaves every other byte of them.
pub proof fn lemma_tables_step(entries: Seq<ChunkEntry>, i: int)
    requires
        0 <= i < entries.len(),
    ensures
        in_region(entries[i].coordinate) ==> location_table(entries.take(i + 1)) == put(
            location_table(entries.take(i)),
            slot_offset(entries[i].coordinate.0 as int, entries[i].coordinate.1 as int),
            location_bytes(frame_sector(entries, i), entries[i].data.len() as int),
        ) && timestamp_table(entries.take(i + 1)) == put(
            timestamp_table(entries.take(i)),
            slot_offset(entries[i].coordinate.0 as int, entries[i].coordinate.1 as int),
            be32_bytes(entries[i].timestamp as int),
        ),
        !in_region(entries[i].coordinate) ==> location_table(entries.take(i + 1))
            == location_table(entries.take(i)) && timestamp_table(entries.take(i + 1))
            == timestamp_table(entries.take(i)),
{
    let entry = entries[i];
    let slot = slot_offset(entry.coordinate.0 as int, entry.coordinate.1 as int);
    let location = location_bytes(frame_sector(entries, i), entry.data.len() as int);
    let timestamp = be32_bytes(entry.timestamp as int);
    assert(location.len() == 4);
    assert(timestamp.len() == 4);
    assert forall|k: int| 0 <= k < 4096 implies #[trigger] location_table(entries.take(i + 1))[k]
        == (if in_region(entry.coordinate) && slot <= k < slot + 4 {
        location[k - slot]
    } else {
        location_table(entries.take(i))[k]
    }) by {
        lemma_entry_step(entries, i, k / 4 % 32, k / 128);
    }
    assert forall|k: int| 0 <= k < 4096 implies #[trigger] timestamp_table(entries.take(i + 1))[k]
        == (if in_region(entry.coordinate) && slot <= k < slot + 4 {
        timestamp[k - slot]
    } else {
        timestamp_table(entries.take(i))[k]
    }) by {
        lemma_entry_step(entries, i, k / 4 % 32, k / 128);
    }
    if in_region(entry.coordinate) {
        assert(location_table(entries.take(i + 1)) =~= put(
            location_table(entries.take(i)),
            slot,
            location,
        ));
        assert(timestamp_table(entries.take(i + 1)) =~= put(
            timestamp_table(entries.take(i)),
            slot,
            timestamp,
        ));
    } else {
        assert(location_table(entries.take(i + 1)) =~= location_table(entries.take(i)));
        assert(timestamp_table(entries.take(i + 1)) =~= timestamp_table(entries.take(i)));
    }
}

/// A prefix that fits still fits with one more entry whose length and
/// starting sector the format can record.
pub proof fn lemma_fits_step(entries: Seq<ChunkEntry>, i: int)
    requires
        0 <= i < entries.len(),
        fits(entries.take(i)),
        entries[i].data.len() + 1 <= 0xFFFF_FFFF,
        frame_sector(entries, i) <= 0xFF_FFFF,
    ensures
        fits(entries.take(i + 1)),
{
    let longer = entries.take(i + 1);
    assert forall|j: int| 0 <= j < longer.len() implies (#[trigger] longer[j]).data.len() + 1
        <= 0xFFFF_FFFF && frame_sector(longer, j) <= 0xFF_FFFF by {
        lemma_frame_start_prefix(entries, i + 1, j);
        if j < i {
            lemma_frame_start_prefix(entries, i, j);
            assert(entries.take(i)[j] == longer[j]);
        }
    }
}

} // verus!

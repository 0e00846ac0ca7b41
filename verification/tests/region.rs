use mca::{CompressionType, McaError, RegionReader, RegionWriter};

/// Bytes that no codec can shorten much: a linear congruential sequence.
fn noise(len: usize) -> Vec<u8> {
    let mut state: u32 = 0x2545_F491;
    let mut out = Vec::with_capacity(len);
    for _ in 0..len {
        state = state.wrapping_mul(1_664_525).wrapping_add(1_013_904_223);
        out.push((state >> 24) as u8);
    }
    out
}

fn put_frame(region: &mut Vec<u8>, sector: usize, tag: u8, compressed: &[u8]) {
    let start = sector * 4096;
    let length = (compressed.len() + 1) as u32;
    region[start..start + 4].copy_from_slice(&length.to_be_bytes());
    region[start + 4] = tag;
    region[start + 5..start + 5 + compressed.len()].copy_from_slice(compressed);
}

/// A region with two chunks: `(0, 0)` in two sectors from sector 790 on, and
/// `(18, 17)` in sector 2. Both are zlib streams.
fn sample_region() -> Vec<u8> {
    let mut region = vec![0u8; 792 * 4096];

    let large = CompressionType::Zlib.compress(&noise(6000)).unwrap();
    assert!(large.len() >= 4096 && large.len() + 5 <= 8192);
    region[0..4].copy_from_slice(&[0, 3, 22, 2]);
    region[4096..4100].copy_from_slice(&[102, 128, 130, 115]);
    put_frame(&mut region, 790, 2, &large);

    let small = CompressionType::Zlib.compress(b"a chunk of the sample region").unwrap();
    let slot = RegionReader::chunk_offset(18, 17);
    region[slot..slot + 4].copy_from_slice(&[0, 0, 2, 1]);
    region[4096 + slot..4096 + slot + 4].copy_from_slice(&[102, 128, 130, 116]);
    put_frame(&mut region, 2, 2, &small);

    region
}

#[test]
fn new_region() {
    let bytes = sample_region();
    let region = RegionReader::new(&bytes).unwrap();

    assert_eq!(region.inner().len(), bytes.len());
}

#[test]
fn chunk_parse() {
    let bytes = sample_region();
    let region = RegionReader::new(&bytes).unwrap();
    let chunk = region.get_chunk(0, 0).unwrap().unwrap();

    assert_eq!(chunk.get_compression_type(), CompressionType::Zlib);
    assert!(chunk.raw_data.len() >= 4096);
}

#[test]
fn entire_region() {
    let bytes = sample_region();
    let region = RegionReader::new(&bytes).unwrap();

    let mut seen = 0;
    let mut present = 0;
    let mut iter = region.iter();
    while let Some(chunk) = iter.next() {
        if chunk.unwrap().is_some() {
            present += 1;
        }
        seen += 1;
    }
    assert_eq!(seen, 1024);
    assert_eq!(present, 2);
}

#[test]
fn parse_nbt() {
    let bytes = sample_region();
    let region = RegionReader::new(&bytes).unwrap();
    let chunk = region.get_chunk(18, 17).unwrap().unwrap();

    let data = chunk.decompress().unwrap();
    assert_eq!(data, b"a chunk of the sample region");
}

#[test]
fn decompress() {
    let bytes = sample_region();
    let region = RegionReader::new(&bytes).unwrap();
    let chunk = region.get_chunk(18, 17).unwrap().unwrap();

    let _ = chunk.decompress().unwrap();
}

#[test]
fn get_location() {
    let bytes = sample_region();
    let region = RegionReader::new(&bytes).unwrap();
    let location = region
        .get_location(RegionReader::chunk_offset(0, 0))
        .unwrap();

    assert_eq!(location, [0, 3, 22, 2]);
}

#[test]
fn get_timestamp() {
    let bytes = sample_region();
    let region = RegionReader::new(&bytes).unwrap();
    let timestamp = region
        .get_timestamp(RegionReader::chunk_offset(0, 0))
        .unwrap();

    assert_eq!(timestamp, [102, 128, 130, 115]);
}

#[test]
fn no_chunk() {
    let mut bytes = vec![0, 0, 2, 1]; // offset 2 * SECTOR_SIZE
    bytes.extend_from_slice(&[0; 8188]);

    let region = RegionReader::new(&bytes).unwrap();

    let chunk = region.get_chunk(0, 0);

    if let Err(McaError::InvalidChunkPayload(_)) = chunk {
        assert!(true)
    } else {
        assert!(false)
    }
}

#[test]
fn round_trip() {
    let bytes = sample_region();
    let region = RegionReader::new(&bytes).unwrap();
    let mut writer = RegionWriter::new();

    let mut idx: usize = 0;
    let mut iter = region.iter();
    while let Some(chunk) = iter.next() {
        let at = idx;
        idx += 1;
        let chunk = match chunk.unwrap() {
            Some(data) => data,
            None => continue,
        };

        let data = chunk.decompress().unwrap();
        writer
            .push_chunk_with_compression(
                &data,
                ((at % 32) as u8, (at / 32) as u8),
                CompressionType::Zlib,
                1724372177,
            )
            .unwrap();
    }

    let mut buf = vec![];
    writer.write(&mut buf).unwrap();

    let new_region = RegionReader::new(&buf).unwrap();
    let chunk = new_region.get_chunk(0, 0).unwrap().unwrap();

    let data = chunk.decompress().unwrap();
    assert_eq!(data, noise(6000));
}

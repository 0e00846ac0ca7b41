use mca::{CompressionType, McaError, PendingChunk, RawChunk};

fn samples() -> Vec<Vec<u8>> {
    let mut long = Vec::new();
    for i in 0..200_000u32 {
        long.push((i % 251) as u8 ^ (i / 977) as u8);
    }
    vec![
        Vec::new(),
        vec![0],
        b"hello world".to_vec(),
        vec![7; 70_000],
        long,
    ]
}

#[test]
fn tags_and_types_correspond() {
    let pairs = [
        (1u8, CompressionType::GZip),
        (2, CompressionType::Zlib),
        (3, CompressionType::Uncompressed),
        (4, CompressionType::LZ4),
        (127, CompressionType::Custom),
    ];
    for (tag, compression) in pairs {
        assert_eq!(compression.to_u8(), tag);
        assert_eq!(u8::from(compression), tag);
        assert_eq!(CompressionType::from_u8(tag).unwrap(), compression);
        assert_eq!(CompressionType::try_from(tag).unwrap(), compression);
    }
}

#[test]
fn every_other_tag_is_refused() {
    for tag in 0..=255u8 {
        if [1, 2, 3, 4, 127].contains(&tag) {
            continue;
        }
        match CompressionType::from_u8(tag) {
            Err(McaError::InvalidCompressionType(found)) => assert_eq!(found, tag),
            other => panic!("tag {tag} gave {other:?}"),
        }
        assert!(matches!(
            CompressionType::try_from(tag),
            Err(McaError::InvalidCompressionType(found)) if found == tag
        ));
    }
}

#[test]
fn uncompressed_is_the_identity() {
    for data in samples() {
        assert_eq!(CompressionType::Uncompressed.compress(&data).unwrap(), data);
        assert_eq!(CompressionType::Uncompressed.decompress(&data).unwrap(), data);
    }
}

#[test]
fn supported_codecs_give_back_what_they_took() {
    let codecs = [
        CompressionType::Uncompressed,
        CompressionType::Zlib,
        CompressionType::LZ4,
    ];
    for compression in codecs {
        for data in samples() {
            let compressed = compression.compress(&data).unwrap();
            assert_eq!(compression.decompress(&compressed).unwrap(), data);
        }
    }
}

#[test]
fn zlib_writes_a_zlib_stream() {
    let data = vec![7u8; 70_000];
    let compressed = CompressionType::Zlib.compress(&data).unwrap();
    assert_ne!(compressed, data);
    assert!(compressed.len() < 1000);
    // The two bytes of a zlib header: deflate, and a check value that makes
    // the pair a multiple of 31.
    assert_eq!(compressed[0] & 0x0f, 8);
    assert_eq!((compressed[0] as u32 * 256 + compressed[1] as u32) % 31, 0);
    assert_eq!(
        miniz_oxide::inflate::decompress_to_vec_zlib(&compressed).unwrap(),
        data
    );
    assert_eq!(
        compressed,
        miniz_oxide::deflate::compress_to_vec_zlib(&data, 4)
    );
}

#[test]
fn zlib_reads_a_known_stream() {
    let stream = [
        120, 156, 243, 72, 205, 201, 201, 215, 81, 168, 202, 201, 76, 82, 4, 0, 27, 101, 4, 19,
    ];
    assert_eq!(
        CompressionType::Zlib.decompress(&stream).unwrap(),
        b"Hello, zlib!"
    );
}

#[test]
fn lz4_writes_a_block_stream() {
    let data = vec![7u8; 70_000];
    let compressed = CompressionType::LZ4.compress(&data).unwrap();
    assert_ne!(compressed, data);
    assert!(compressed.len() < 1000);
    assert_eq!(&compressed[..8], b"LZ4Block");
    // 70 000 bytes take two blocks of at most 65 536 bytes.
    let second = compressed
        .windows(8)
        .skip(1)
        .position(|window| window == b"LZ4Block");
    assert!(second.is_some());
}

#[test]
fn lz4_reads_a_known_stream() {
    let stream = [
        76, 90, 52, 66, 108, 111, 99, 107, 16, 3, 0, 0, 0, 3, 0, 0, 0, 82, 228, 119, 6, 46, 46, 46,
    ];
    assert_eq!(CompressionType::LZ4.decompress(&stream).unwrap(), b"...");
}

#[test]
fn lz4_of_nothing_is_nothing() {
    assert_eq!(CompressionType::LZ4.compress(&[]).unwrap(), Vec::<u8>::new());
    assert_eq!(CompressionType::LZ4.decompress(&[]).unwrap(), Vec::<u8>::new());
}

#[test]
fn malformed_zlib_is_an_error() {
    let result = CompressionType::Zlib.decompress(b"certainly not a zlib stream");
    assert!(matches!(result, Err(McaError::ZLib(_))));
    let truncated = CompressionType::Zlib.compress(b"hello world").unwrap();
    let result = CompressionType::Zlib.decompress(&truncated[..truncated.len() - 3]);
    assert!(matches!(result, Err(McaError::ZLib(_))));
}

#[test]
fn malformed_lz4_is_an_error() {
    let result = CompressionType::LZ4.decompress(b"certainly not a block stream of LZ4");
    assert!(matches!(result, Err(McaError::IoError(_))));
    let mut damaged = CompressionType::LZ4.compress(b"hello world").unwrap();
    let last = damaged.len() - 1;
    damaged[last] ^= 0xff;
    let result = CompressionType::LZ4.decompress(&damaged);
    assert!(matches!(result, Err(McaError::IoError(_))));
}

#[test]
fn codecs_without_algorithm_are_refused() {
    for compression in [CompressionType::GZip, CompressionType::Custom] {
        assert!(matches!(
            compression.compress(b"hello world"),
            Err(McaError::UnsupportedCompression(found)) if found == compression
        ));
        assert!(matches!(
            compression.decompress(b"hello world"),
            Err(McaError::UnsupportedCompression(found)) if found == compression
        ));
        assert!(matches!(
            PendingChunk::new(b"hello world", compression, 0, (0, 0)),
            Err(McaError::UnsupportedCompression(found)) if found == compression
        ));
        assert!(matches!(
            RawChunk::new(b"hello world", compression).decompress(),
            Err(McaError::UnsupportedCompression(found)) if found == compression
        ));
    }
}

#[test]
fn codec_errors_convert() {
    let failure = miniz_oxide::inflate::decompress_to_vec_zlib(b"no").unwrap_err();
    assert!(matches!(McaError::from(failure), McaError::ZLib(_)));
    let failure = std::io::Error::new(std::io::ErrorKind::InvalidData, "no");
    assert!(matches!(McaError::from(failure), McaError::IoError(_)));
}

#[test]
fn raw_chunk_keeps_what_it_was_given() {
    let bytes = [1u8, 2, 3];
    let chunk = RawChunk::new(&bytes, CompressionType::Uncompressed);
    assert_eq!(chunk.raw_data, &bytes);
    assert_eq!(chunk.raw_data(), &bytes);
    assert_eq!(chunk.get_compression_type(), CompressionType::Uncompressed);
    assert_eq!(chunk.decompress().unwrap(), bytes);
    assert_eq!(chunk.clone(), chunk);
}

#[test]
fn pending_chunk_holds_the_compressed_bytes() {
    let chunk =
        PendingChunk::new(b"hello world", CompressionType::Uncompressed, 1724372177, (4, 6))
            .unwrap();
    assert_eq!(chunk.compressed_data, b"hello world");
    assert_eq!(chunk.compression, CompressionType::Uncompressed);
    assert_eq!(chunk.timestamp, 1724372177);
    assert_eq!(chunk.coordinate, (4, 6));
    assert_eq!(chunk.clone(), chunk);

    let chunk = PendingChunk::new(&[7; 70_000], CompressionType::Zlib, 5, (31, 31)).unwrap();
    assert_eq!(
        chunk.compressed_data,
        CompressionType::Zlib.compress(&[7; 70_000]).unwrap()
    );
    let chunk = PendingChunk::new(&[7; 70_000], CompressionType::LZ4, 5, (0, 31)).unwrap();
    assert_eq!(
        chunk.compressed_data,
        CompressionType::LZ4.compress(&[7; 70_000]).unwrap()
    );
}

//! The outside codecs. Nothing in this file is proved. The contracts give the
//! results of the outside functions names, so that the rest of the library
//! can speak of them, and state of the two encoders what their crates
//! document: that the matching decoder gives back what was encoded.

use vstd::prelude::*;

verus! {

/// The zlib stream that `miniz_oxide` makes of `data` at `level`.
pub uninterp spec fn zlib_stream(data: Seq<u8>, level: u8) -> Seq<u8>;

/// What `miniz_oxide` decodes from a zlib stream; `None` where it refuses it.
pub uninterp spec fn zlib_content(stream: Seq<u8>) -> Option<Seq<u8>>;

/// What `lz4_java_wrc` decodes from an LZ4 block stream; `None` where it
/// refuses it.
pub uninterp spec fn lz4_block_content(stream: Seq<u8>) -> Option<Seq<u8>>;

/// `miniz_oxide::deflate::compress_to_vec_zlib`: the output depends on the
/// input bytes and the level alone, and `decompress_to_vec_zlib` gives the
/// input back from it, as the round trip in the crate's documentation shows.
/// The levels that the crate documents are 0 to 10.
pub assume_specification[ miniz_oxide::deflate::compress_to_vec_zlib ](
    input: &[u8],
    level: u8,
) -> (out: Vec<u8>)
    requires
        level <= 10,
    ensures
        out@ == zlib_stream(input@, level),
        zlib_content(out@) == Some(input@),
;

/// `miniz_oxide::inflate::decompress_to_vec_zlib`: whether the stream is
/// accepted, and the bytes it then yields, depend on the input bytes alone.
pub assume_specification[ miniz_oxide::inflate::decompress_to_vec_zlib ](input: &[u8]) -> (r:
    Result<Vec<u8>, miniz_oxide::inflate::DecompressError>)
    ensures
        match r {
            Ok(out) => zlib_content(input@) == Some(out@),
            Err(_) => zlib_content(input@) is None,
        },
;

/// Writes `data` through `lz4_java_wrc::Lz4BlockOutput::new` into a fresh
/// vector. The writer flushes its last block when it is dropped. The write
/// succeeds: a vector takes every write, and the encoder fails only on an
/// output buffer below its own bound, at which the writer allocates it. The
/// bytes it leaves are not the same on every machine, since the encoder
/// searches for matches by the width of a pointer; on every machine
/// `Lz4BlockInput` gives `data` back from them, as the example in the crate's
/// documentation shows.
#[verifier::external_body]
pub(crate) fn lz4_block_compress(data: &[u8]) -> (r: Result<Vec<u8>, std::io::Error>)
    ensures
        r is Ok,
        r matches Ok(out) ==> lz4_block_content(out@) == Some(data@),
{
    let mut buf: Vec<u8> = Vec::new();
    std::io::Write::write_all(&mut lz4_java_wrc::Lz4BlockOutput::new(&mut buf), data)?;
    Ok(buf)
}

/// Reads `data` to its end through `lz4_java_wrc::Lz4BlockInput::new`. Whether
/// the stream is accepted, and the bytes it then yields, depend on `data`
/// alone.
#[verifier::external_body]
pub(crate) fn lz4_block_decompress(data: &[u8]) -> (r: Result<Vec<u8>, std::io::Error>)
    ensures
        match r {
            Ok(out) => lz4_block_content(data@) == Some(out@),
            Err(_) => lz4_block_content(data@) is None,
        },
{
    let mut buf: Vec<u8> = Vec::new();
    std::io::Read::read_to_end(&mut lz4_java_wrc::Lz4BlockInput::new(data), &mut buf)?;
    Ok(buf)
}

} // verus!

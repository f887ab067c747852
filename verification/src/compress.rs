//! The compression of an entry's payload.
//!
//! A payload is compressed whole, with zlib at its highest level, and
//! decompressed whole. The archive stores the length of the compressed
//! bytes before them.

use crate::binary::{bytes_view, result_view};
use crate::error::{ArchiveError, Failure};
use flate2::bufread::{ZlibDecoder, ZlibEncoder};
use flate2::Compression;
use std::io::Read;
use vstd::prelude::*;

verus! {

/// The level at which payloads are compressed.
pub const COMPRESSION_LEVEL: u32 = 9;

/// The zlib stream that flate2 makes of `data` at `level`, where it makes
/// one.
pub uninterp spec fn zlib_deflated(data: Seq<u8>, level: u32) -> Option<Seq<u8>>;

/// The bytes that flate2 reads out of the zlib stream `data`, where `data`
/// is one.
pub uninterp spec fn zlib_inflated(data: Seq<u8>) -> Option<Seq<u8>>;

/// Calls flate2's `ZlibEncoder` on `data` and reads it to its end. The
/// result is what the encoder gives for these bytes and this level; `None`
/// stands for an error of the read.
#[verifier::external_body]
fn zlib_compress(data: &[u8], level: u32) -> (packed: Option<Vec<u8>>)
    requires
        level <= 9,
    ensures
        bytes_view(packed) == zlib_deflated(data@, level),
{
    let mut encoder = ZlibEncoder::new(data, Compression::new(level));
    let mut packed = Vec::new();
    match encoder.read_to_end(&mut packed) {
        Ok(_) => Some(packed),
        Err(_) => None,
    }
}

/// Calls flate2's `ZlibDecoder` on `data` and reads it to its end. The
/// result is what the decoder gives for these bytes; `None` stands for an
/// error of the read, which is how the decoder refuses corrupt input.
#[verifier::external_body]
fn zlib_decompress(data: &[u8]) -> (unpacked: Option<Vec<u8>>)
    ensures
        bytes_view(unpacked) == zlib_inflated(data@),
{
    let mut decoder = ZlibDecoder::new(data);
    let mut unpacked = Vec::new();
    match decoder.read_to_end(&mut unpacked) {
        Ok(_) => Some(unpacked),
        Err(_) => None,
    }
}

/// What `compress` returns for the outcome `packed` of the compressor.
pub open spec fn compress_outcome(packed: Option<Seq<u8>>) -> Result<Seq<u8>, Failure> {
    match packed {
        Some(p) => Ok(p),
        None => Err(Failure::CompressionFailed),
    }
}

/// What `decompress` returns for the outcome `unpacked` of the decompressor.
pub open spec fn decompress_outcome(unpacked: Option<Seq<u8>>) -> Result<Seq<u8>, Failure> {
    match unpacked {
        Some(p) => Ok(p),
        None => Err(Failure::DecompressionFailed),
    }
}

/// Turns the compressor's outcome into the library's result.
pub fn compressed_or_error(packed: Option<Vec<u8>>) -> (result: Result<Vec<u8>, ArchiveError>)
    ensures
        result_view(result) == compress_outcome(bytes_view(packed)),
{
    match packed {
        Some(p) => Ok(p),
        None => Err(ArchiveError::CompressionFailed),
    }
}

/// Turns the decompressor's outcome into the library's result.
pub fn decompressed_or_error(unpacked: Option<Vec<u8>>) -> (result: Result<
    Vec<u8>,
    ArchiveError,
>)
    ensures
        result_view(result) == decompress_outcome(bytes_view(unpacked)),
{
    match unpacked {
        Some(p) => Ok(p),
        None => Err(ArchiveError::DecompressionFailed),
    }
}

/// Compresses a payload.
pub fn compress(data: &[u8]) -> (result: Result<Vec<u8>, ArchiveError>)
    ensures
        result_view(result) == compress_outcome(zlib_deflated(data@, COMPRESSION_LEVEL)),
{
    compressed_or_error(zlib_compress(data, COMPRESSION_LEVEL))
}

/// Decompresses a payload. Bytes that are no zlib stream are refused.
pub fn decompress(data: &[u8]) -> (result: Result<Vec<u8>, ArchiveError>)
    ensures
        result_view(result) == decompress_outcome(zlib_inflated(data@)),
{
    decompressed_or_error(zlib_decompress(data))
}

} // verus!

//! The decoders for compressed request bodies.
use std::io::Read;
use vstd::prelude::*;

verus! {

/// The I/O error of std.
#[verifier::external_type_specification]
#[verifier::external_body]
pub struct ExIoError(std::io::Error);

/// What `flate2::read::GzDecoder` decodes bytes to, or `None` where it fails.
pub uninterp spec fn gzip_decoded(bytes: Seq<u8>) -> Option<Seq<u8>>;

/// What `flate2::read::DeflateDecoder` decodes bytes to, or `None` where it fails.
pub uninterp spec fn deflate_decoded(bytes: Seq<u8>) -> Option<Seq<u8>>;

/// What `brotli::Decompressor`, reading 4096 bytes at a time, decodes bytes to, or `None`
/// where it fails.
pub uninterp spec fn brotli_decoded(bytes: Seq<u8>) -> Option<Seq<u8>>;

/// What `zstd::Decoder` decodes bytes to, or `None` where it fails.
pub uninterp spec fn zstd_decoded(bytes: Seq<u8>) -> Option<Seq<u8>>;

/// What a decoder returned, without the reason of a failure.
pub open spec fn outcome(result: Result<Vec<u8>, std::io::Error>) -> Option<Seq<u8>> {
    match result {
        Ok(bytes) => Some(bytes@),
        Err(_) => None,
    }
}

/// Reads a `flate2::read::GzDecoder` over the bytes to its end: the first gzip member.
#[verifier::external_body]
pub(crate) fn decode_gzip(bytes: &[u8]) -> (result: Result<Vec<u8>, std::io::Error>)
    ensures
        outcome(result) == gzip_decoded(bytes@),
{
    let mut decoded = Vec::with_capacity(8 * 1024);
    flate2::read::GzDecoder::new(bytes).read_to_end(&mut decoded)?;
    Ok(decoded)
}

/// Reads a `flate2::read::DeflateDecoder` over the bytes to its end.
#[verifier::external_body]
pub(crate) fn decode_deflate(bytes: &[u8]) -> (result: Result<Vec<u8>, std::io::Error>)
    ensures
        outcome(result) == deflate_decoded(bytes@),
{
    let mut decoded = Vec::with_capacity(8 * 1024);
    flate2::read::DeflateDecoder::new(bytes).read_to_end(&mut decoded)?;
    Ok(decoded)
}

/// Reads a `brotli::Decompressor` over the bytes to its end.
#[verifier::external_body]
pub(crate) fn decode_brotli(bytes: &[u8]) -> (result: Result<Vec<u8>, std::io::Error>)
    ensures
        outcome(result) == brotli_decoded(bytes@),
{
    let mut decoded = Vec::with_capacity(8 * 1024);
    brotli::Decompressor::new(bytes, 4096).read_to_end(&mut decoded)?;
    Ok(decoded)
}

/// Reads a `zstd::Decoder` over the bytes to its end: all frames, one after the other.
#[verifier::external_body]
pub(crate) fn decode_zstd(bytes: &[u8]) -> (result: Result<Vec<u8>, std::io::Error>)
    ensures
        outcome(result) == zstd_decoded(bytes@),
{
    let mut decoded = Vec::with_capacity(8 * 1024);
    zstd::Decoder::new(bytes)?.read_to_end(&mut decoded)?;
    Ok(decoded)
}

} // verus!

//! Byte compression through the `flate2` and `brotli` crates. What the
//! encoders write is named, not described; what is stated is that decoding
//! what was encoded gives the input back.

use vstd::prelude::*;
use std::io::{Read, Write};

verus! {

/// An I/O error as std reports it; opaque here.
#[verifier::external_type_specification]
#[verifier::external_body]
pub struct ExIoError(std::io::Error);

/// The gzip stream that `flate2`'s `GzEncoder` writes for `data` at the
/// default compression level.
pub uninterp spec fn gzip_of(data: Seq<u8>) -> Seq<u8>;

/// What `flate2`'s `GzDecoder` reads from `data`: the bytes it decodes, or
/// nothing where `data` is no gzip stream.
pub uninterp spec fn gunzip_of(data: Seq<u8>) -> Option<Seq<u8>>;

/// The brotli stream that `brotli`'s `CompressorWriter` writes for `data`
/// with the default encoder parameters and a 4096-byte buffer.
pub uninterp spec fn brotli_of(data: Seq<u8>) -> Seq<u8>;

/// What `brotli`'s `Decompressor` reads from `data`: the bytes it decodes,
/// or nothing where `data` is no brotli stream.
pub uninterp spec fn unbrotli_of(data: Seq<u8>) -> Option<Seq<u8>>;

/// Compresses `data` with `flate2::write::GzEncoder` into a vector. Where it
/// succeeds, the stream is the one named by `gzip_of`, and decoding it gives
/// `data` back, as a lossless gzip stream does.
#[verifier::external_body]
pub(crate) fn gzip_compress(data: &[u8]) -> (r: Result<Vec<u8>, std::io::Error>)
    ensures
        r matches Ok(v) ==> v@ == gzip_of(data@) && gunzip_of(v@) == Some(data@),
{
    let mut encoder = flate2::write::GzEncoder::new(Vec::new(), flate2::Compression::default());
    encoder.write_all(data)?;
    encoder.finish()
}

/// Decompresses `data` with `flate2::read::GzDecoder`, reading to the end.
#[verifier::external_body]
pub(crate) fn gzip_decompress(data: &[u8]) -> (r: Result<Vec<u8>, std::io::Error>)
    ensures
        match r {
            Ok(v) => gunzip_of(data@) == Some(v@),
            Err(_) => gunzip_of(data@) is None,
        },
{
    let mut decoder = flate2::read::GzDecoder::new(data);
    let mut out = Vec::new();
    decoder.read_to_end(&mut out)?;
    Ok(out)
}

/// Compresses `data` with `brotli::CompressorWriter` (default
/// `BrotliEncoderParams`, 4096-byte buffer) into a vector; `into_inner`
/// finishes the stream. Where it succeeds, the stream is the one named by
/// `brotli_of`, and decoding it gives `data` back, as a lossless brotli
/// stream does.
#[verifier::external_body]
pub(crate) fn brotli_compress(data: &[u8]) -> (r: Result<Vec<u8>, std::io::Error>)
    ensures
        r matches Ok(v) ==> v@ == brotli_of(data@) && unbrotli_of(v@) == Some(data@),
{
    let params = brotli::enc::BrotliEncoderParams::default();
    let mut writer = brotli::CompressorWriter::with_params(Vec::new(), 4096, &params);
    writer.write_all(data)?;
    Ok(writer.into_inner())
}

/// Decompresses `data` with `brotli::Decompressor` (4096-byte buffer),
/// reading to the end.
#[verifier::external_body]
pub(crate) fn brotli_decompress(data: &[u8]) -> (r: Result<Vec<u8>, std::io::Error>)
    ensures
        match r {
            Ok(v) => unbrotli_of(data@) == Some(v@),
            Err(_) => unbrotli_of(data@) is None,
        },
{
    let mut reader = brotli::Decompressor::new(data, 4096);
    let mut out = Vec::new();
    reader.read_to_end(&mut out)?;
    Ok(out)
}

/// The message of an I/O error, as its `Display` shows it.
#[verifier::external_body]
pub(crate) fn io_error_message(e: &std::io::Error) -> String {
    e.to_string()
}

} // verus!

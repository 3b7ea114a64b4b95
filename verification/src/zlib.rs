//! The compression boundary: scanline streams are handed to a zlib service
//! (the `flate2` crate) before becoming IDAT payloads, and back.
//!
//! Decompression is a pure function of the input bytes (inflate is fully
//! determined by the zlib format), so it gets a name, `inflate_of`.
//! Compression output may legitimately vary, so nothing is assumed of it
//! beyond what always holds: decompressing it yields the original bytes.

use vstd::prelude::*;

use crate::err::{PngErr, PngRes};

verus! {

/// What zlib decompression yields on `s`: the decompressed bytes, or `None`
/// when `s` is not a valid zlib stream. Its definition is left to the
/// `flate2` crate.
pub uninterp spec fn inflate_of(s: Seq<u8>) -> Option<Seq<u8>>;

/// Relies on `flate2::write::ZlibEncoder`: zlib-compresses the bytes
/// losslessly, so decompressing the output yields the input again.
#[verifier::external_body]
pub fn compress(data: &[u8]) -> (r: PngRes<Vec<u8>>)
    ensures
        match r {
            Ok(out) => inflate_of(out@) == Some(data@),
            Err(e) => e == PngErr::CompressError,
        },
{
    let mut encoder = flate2::write::ZlibEncoder::new(Vec::new(), flate2::Compression::default());
    if std::io::Write::write_all(&mut encoder, data).is_err() {
        return Err(PngErr::CompressError);
    }
    encoder.finish().or(Err(PngErr::CompressError))
}

/// Relies on `flate2::read::ZlibDecoder`: decompresses a zlib stream,
/// succeeding exactly on valid streams, with the output determined by the
/// input bytes alone.
#[verifier::external_body]
pub fn decompress(data: &[u8]) -> (r: PngRes<Vec<u8>>)
    ensures
        match r {
            Ok(out) => inflate_of(data@) == Some(out@),
            Err(e) => e == PngErr::DecompressError && inflate_of(data@) is None,
        },
{
    let mut decoder = flate2::read::ZlibDecoder::new(data);
    let mut output = Vec::with_capacity(data.len());
    match std::io::Read::read_to_end(&mut decoder, &mut output) {
        Ok(_) => Ok(output),
        Err(_) => Err(PngErr::DecompressError),
    }
}

} // verus!

use pngme::chunk::{segment4, Chunk};
use pngme::chunk_type::ChunkType;
use pngme::commands::{decode, encode, print, remove};
use pngme::err::PngErr;
use pngme::img::Img;
use pngme::png::Png;

fn minimal_file() -> Vec<u8> {
    Png::from_img(&Img::new(1, 1)).unwrap().as_bytes()
}

#[test]
fn segment_wants_exactly_four_bytes() {
    assert_eq!(segment4(&[1, 2, 3]).unwrap_err(), PngErr::InvalidSegment);
    assert_eq!(segment4(&[1, 2, 3, 4]).unwrap(), [1, 2, 3, 4]);
}

#[test]
fn tag_with_digit_is_rejected() {
    assert_eq!(
        ChunkType::from_bytes("Ru1t".as_bytes()).unwrap_err(),
        PngErr::InvalidByte
    );
}

#[test]
fn policy_errors_in_priority_order() {
    let critical = ChunkType::from_bytes("Rust".as_bytes()).unwrap();
    assert_eq!(critical.checked_me_type().unwrap_err(), PngErr::ExpectNonCritical);

    let public = ChunkType::from_bytes("rUst".as_bytes()).unwrap();
    assert_eq!(public.checked_me_type().unwrap_err(), PngErr::ExpectPrivate);

    let reserved = ChunkType::from_bytes("rust".as_bytes()).unwrap();
    assert_eq!(reserved.checked_me_type().unwrap_err(), PngErr::ExpectReservedBit);

    let fine = ChunkType::from_bytes("ruSt".as_bytes()).unwrap();
    assert!(fine.checked_me_type().is_ok());
}

#[test]
fn short_chunk_is_rejected() {
    assert_eq!(
        Chunk::try_from(&[0u8; 11][..]).unwrap_err(),
        PngErr::ShortChunk
    );
}

#[test]
fn length_mismatch_is_detected() {
    // A chunk whose declared length does not match its payload size.
    let ty = ChunkType::from_bytes("ruSt".as_bytes()).unwrap();
    let chunk = Chunk::new(ty, b"four".to_vec());
    let mut bytes = chunk.as_bytes();
    bytes[3] = 9; // declare a longer payload than is present
    assert_eq!(Chunk::try_from(bytes.as_slice()).unwrap_err(), PngErr::LengthMismatch);
}

#[test]
fn non_utf8_payload_is_reported() {
    let ty = ChunkType::from_bytes("ruSt".as_bytes()).unwrap();
    let chunk = Chunk::new(ty, vec![0xFF, 0xFE]);
    assert_eq!(chunk.data_as_string().unwrap_err(), PngErr::NotUTF8);
}

#[test]
fn bad_signature_is_rejected() {
    assert_eq!(
        Png::try_from(&[0u8; 16][..]).unwrap_err(),
        PngErr::InvalidHeader
    );
    assert_eq!(Png::try_from(&[][..]).unwrap_err(), PngErr::InvalidHeader);
}

#[test]
fn missing_chunk_is_reported() {
    let file = minimal_file();
    assert_eq!(
        decode(file.as_slice(), "zzAb").unwrap_err(),
        PngErr::ChunkNotFound
    );
    assert_eq!(
        remove(file.as_slice(), "zzAb").unwrap_err(),
        PngErr::ChunkNotFound
    );
}

#[test]
fn encode_validates_tag_policy() {
    let file = minimal_file();
    assert_eq!(
        encode(file.as_slice(), "IDAT", "x").unwrap_err(),
        PngErr::ExpectNonCritical
    );
    assert_eq!(
        encode(file.as_slice(), "longtag", "x").unwrap_err(),
        PngErr::InvalidSegment
    );
}

#[test]
fn invalid_ihdr_payload_is_reported() {
    let ty = ChunkType::from_bytes("IHDR".as_bytes()).unwrap();
    let bogus = Chunk::new(ty, vec![0; 5]);
    assert_eq!(
        Chunk::ihdr_to_dimensions(&bogus).unwrap_err(),
        PngErr::InvalidIHDR
    );
}

#[test]
fn oversized_dimensions_are_rejected() {
    assert_eq!(
        Chunk::ihdr(0x80000001, 1).unwrap_err(),
        PngErr::IHDRWidthOverflow
    );
    assert_eq!(
        Chunk::ihdr(1, 0x80000001).unwrap_err(),
        PngErr::IHDRHeightOverflow
    );
}

#[test]
fn ragged_rows_are_rejected() {
    assert_eq!(
        Img::from_vec_2d(vec![vec![1, 2], vec![3]]).unwrap_err(),
        PngErr::WidthMismatch
    );
    assert_eq!(Img::from_vec_2d(vec![]).unwrap_err(), PngErr::ZeroWidth);
}

#[test]
fn corrupt_idat_is_reported() {
    // Valid container, IHDR present, but the IDAT payload is not zlib data.
    let ihdr = Chunk::ihdr(1, 1).unwrap();
    let ty = ChunkType::from_bytes("IDAT".as_bytes()).unwrap();
    let idat = Chunk::new(ty, vec![1, 2, 3]);
    let iend = Chunk::iend().unwrap();
    let png = Png::from_chunks(vec![ihdr, idat, iend]);
    assert_eq!(Img::from_png(&png).unwrap_err(), PngErr::DecompressError);
}

#[test]
fn wrong_pixel_payload_length_is_reported() {
    // Valid zlib data whose decompressed size does not match the dimensions.
    let ihdr = Chunk::ihdr(1, 1).unwrap();
    let compressed = pngme::zlib::compress(&[0u8; 6]).unwrap();
    let ty = ChunkType::from_bytes("IDAT".as_bytes()).unwrap();
    let idat = Chunk::new(ty, compressed);
    let iend = Chunk::iend().unwrap();
    let png = Png::from_chunks(vec![ihdr, idat, iend]);
    assert_eq!(Img::from_png(&png).unwrap_err(), PngErr::DataLengthMismatch);
}

#[test]
fn missing_ihdr_is_reported() {
    let ty = ChunkType::from_bytes("ruSt".as_bytes()).unwrap();
    let png = Png::from_chunks(vec![Chunk::new(ty, vec![])]);
    assert_eq!(Img::from_png(&png).unwrap_err(), PngErr::InvalidHeader);
}

#[test]
fn print_lists_chunks_and_dimensions() {
    let ty = ChunkType::from_bytes("ruSt".as_bytes()).unwrap();
    let png = Png::from_chunks(vec![Chunk::new(ty, b"hello".to_vec())]);
    let file = png.as_bytes();
    let listing = print(file.as_slice()).unwrap();
    assert_eq!(listing, "ruSt (5): hello\nImage does not contain IHDR chunk.");
}

#[test]
fn print_reports_dimensions() {
    let file = Png::from_img(&Img::new_bg(7, 9, 3)).unwrap().as_bytes();
    let listing = print(file.as_slice()).unwrap();
    assert!(listing.ends_with("Image Dimensions: 7x9"));
}

#[test]
fn error_messages_cover_not_or_and_is_or() {
    assert_eq!(PngErr::not_or(true, PngErr::IntOverflow).unwrap_err(), PngErr::IntOverflow);
    assert!(PngErr::not_or(false, PngErr::IntOverflow).is_ok());
    assert!(PngErr::is_or(true, PngErr::IntOverflow).is_ok());
    assert_eq!(PngErr::is_or(false, PngErr::IntOverflow).unwrap_err(), PngErr::IntOverflow);
}

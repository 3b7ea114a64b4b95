use pngme::commands::{decode, encode, encode_unchecked, print, remove_unchecked, scrub};
use pngme::err::PngErr;
use pngme::img::Img;
use pngme::png::Png;

fn minimal_file() -> Vec<u8> {
    Png::from_img(&Img::new(2, 2)).unwrap().as_bytes()
}

#[test]
fn unchecked_encode_accepts_critical_tags() {
    let file = minimal_file();
    assert_eq!(
        encode(file.as_slice(), "RUST", "nope").unwrap_err(),
        PngErr::ExpectNonCritical
    );
    let out = encode_unchecked(file.as_slice(), "RUST", "sneaky").unwrap();
    assert_eq!(decode(out.as_slice(), "RUST").unwrap(), "sneaky");
}

#[test]
fn unchecked_remove_accepts_critical_tags() {
    let file = minimal_file();
    let out = encode_unchecked(file.as_slice(), "RUST", "sneaky").unwrap();
    let removed = remove_unchecked(out.as_slice(), "RUST").unwrap();
    assert_eq!(
        decode(removed.as_slice(), "RUST").unwrap_err(),
        PngErr::ChunkNotFound
    );
}

#[test]
fn decode_finds_first_match_only() {
    let file = minimal_file();
    let once = encode(file.as_slice(), "zzAb", "first").unwrap();
    let twice = encode(once.as_slice(), "zzAb", "second").unwrap();
    assert_eq!(decode(twice.as_slice(), "zzAb").unwrap(), "first");
}

#[test]
fn scrub_is_idempotent() {
    let file = minimal_file();
    let tagged = encode(file.as_slice(), "zzAb", "x").unwrap();
    let once = scrub(tagged.as_slice()).unwrap();
    let twice = scrub(once.as_slice()).unwrap();
    assert_eq!(once, twice);
}

#[test]
fn print_flags_broken_header_payload() {
    // An IHDR chunk whose payload is not 13 bytes long.
    let ty = pngme::chunk_type::ChunkType::from_bytes("IHDR".as_bytes()).unwrap();
    let bogus = pngme::chunk::Chunk::new(ty, vec![1, 2, 3]);
    let png = Png::from_chunks(vec![bogus]);
    let listing = print(png.as_bytes().as_slice()).unwrap();
    assert!(listing.ends_with("Image contains invalid IHDR chunk!"));
}

#[test]
fn chunk_line_shows_empty_payload() {
    let ty = pngme::chunk_type::ChunkType::from_bytes("ruSt".as_bytes()).unwrap();
    let chunk = pngme::chunk::Chunk::new(ty, Vec::new());
    assert_eq!(chunk.to_string(), "ruSt (0): <empty>");
}

#[test]
fn chunk_line_hides_binary_payload() {
    let ty = pngme::chunk_type::ChunkType::from_bytes("ruSt".as_bytes()).unwrap();
    let chunk = pngme::chunk::Chunk::new(ty, vec![0xFF, 0xFE]);
    assert_eq!(chunk.to_string(), "ruSt (2)");
}

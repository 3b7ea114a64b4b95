use pngme::chunk::Chunk;
use pngme::chunk_type::ChunkType;
use pngme::commands::{decode, encode, remove};
use pngme::err::PngErr;
use pngme::img::Img;
use pngme::png::Png;
use pngme::rect::Rect;

fn testing_chunk_bytes() -> Vec<u8> {
    let data_length: u32 = 42;
    let chunk_type = "RuSt".as_bytes();
    let message_bytes = "This is where your secret message will be!".as_bytes();
    let crc: u32 = 2882656334;

    data_length
        .to_be_bytes()
        .iter()
        .chain(chunk_type.iter())
        .chain(message_bytes.iter())
        .chain(crc.to_be_bytes().iter())
        .copied()
        .collect()
}

#[test]
fn chunk_new_round_trip() {
    let ty = ChunkType::from_bytes("ruSt".as_bytes()).unwrap();
    let chunk = Chunk::new(ty, b"round trip payload".to_vec());
    let parsed = Chunk::try_from(chunk.as_bytes().as_slice()).unwrap();
    assert_eq!(parsed.length(), chunk.length());
    assert_eq!(parsed.chunk_type().bytes(), chunk.chunk_type().bytes());
    assert_eq!(parsed.data(), chunk.data());
    assert_eq!(parsed.crc(), chunk.crc());
}

#[test]
fn crc_bit_flip_sensitivity() {
    let original = testing_chunk_bytes();
    assert!(Chunk::try_from(original.as_slice()).is_ok());

    // Flip every bit of the type and data region in turn: parsing must fail
    // each time. A flipped data bit always shows as a checksum mismatch; a
    // flipped type bit may first fail tag validation instead.
    for byte_idx in 4..original.len() - 4 {
        for bit in 0..8 {
            let mut corrupted = original.clone();
            corrupted[byte_idx] ^= 1u8 << bit;
            let result = Chunk::try_from(corrupted.as_slice());
            match result {
                Ok(_) => panic!("corrupted chunk parsed"),
                Err(e) => {
                    if byte_idx >= 8 {
                        assert_eq!(e, PngErr::CRCMismatch);
                    } else {
                        assert!(e == PngErr::CRCMismatch || e == PngErr::InvalidByte);
                    }
                },
            }
        }
    }
}

#[test]
fn stream_taint_is_permanent() {
    // Covered in spirit by the chunk stream tests; here the absorbing state
    // is pulled several more times.
    let bytes = vec![0u8, 1, 2];
    let mut iter = pngme::chunk::ChunkIter::new(bytes.as_slice());
    assert!(iter.next().unwrap().is_err());
    for _ in 0..5 {
        assert!(iter.next().is_none());
    }
}

#[test]
fn rect_normalization_swap() {
    assert_eq!(
        Rect::from_range(100..=0, 100..=0),
        Rect::from_range(0..=100, 0..=100)
    );
}

#[test]
fn rect_constrain_idempotent() {
    let rect = Rect::new((3, 7), (900, 650));
    let once = rect.constrain(500, 500);
    let twice = once.constrain(500, 500);
    assert_eq!(once, twice);
}

#[test]
fn canvas_fill_and_extract() {
    let color = 0xDEADBEEFu32;
    let img = Img::new(20, 20);
    let mut slice = img.slice(.., ..);
    slice.xywh((5, 5), 10, 10);
    slice.fill(color);
    let tile = slice.clone_to_img();
    assert_eq!(tile.width(), 10);
    assert_eq!(tile.height(), 10);
    assert_eq!(tile.data().len(), 100);
    for px in tile.data().iter() {
        assert_eq!(*px, color);
    }
    let img = slice.into_img();
    for y in 0..20u32 {
        for x in 0..20u32 {
            let expected = if (5..15).contains(&x) && (5..15).contains(&y) {
                color
            } else {
                0
            };
            assert_eq!(img.data()[(y * 20 + x) as usize], expected);
        }
    }
}

#[test]
fn edge_clamped_copy() {
    // A 20x20 canvas whose pixel (x, y) holds x + 20 * y.
    let source: Vec<u32> = (0..400u32).collect();
    let img = Img::from_vec(20, 20, source.clone());
    let mut slice = img.slice(.., ..);
    slice.copy(15, 15);
    let img = slice.into_img();
    for y in 0..20u32 {
        for x in 0..20u32 {
            let idx = (y * 20 + x) as usize;
            let expected = if x >= 15 && y >= 15 {
                // the 5x5 overlap reads from the region's top-left corner
                (x - 15) + 20 * (y - 15)
            } else {
                source[idx]
            };
            assert_eq!(img.data()[idx], expected);
        }
    }
}

#[test]
fn end_to_end_message() {
    let img = Img::new(1, 1);
    let png = Png::from_img(&img).unwrap();
    let file = png.as_bytes();

    let with_message = encode(file.as_slice(), "zzAb", "hello").unwrap();
    let message = decode(with_message.as_slice(), "zzAb").unwrap();
    assert_eq!(message, "hello");

    let removed = remove(with_message.as_slice(), "zzAb").unwrap();
    let png = Png::try_from(removed.as_slice()).unwrap();
    assert!(png.chunk_by_type("zzAb").is_none());
}

#[test]
fn canvas_png_round_trip() {
    let img = Img::new_bg(3, 2, 0x11223344);
    let png = Png::from_img(&img).unwrap();
    let back = Img::from_png(&png).unwrap();
    assert_eq!(back.width(), 3);
    assert_eq!(back.height(), 2);
    assert_eq!(back.data(), img.data());
}

#[test]
fn scrub_strips_ancillary_chunks() {
    let img = Img::new(1, 1);
    let png = Png::from_img(&img).unwrap();
    let file = png.as_bytes();
    let with_message = encode(file.as_slice(), "zzAb", "secret").unwrap();

    let scrubbed = pngme::commands::scrub(with_message.as_slice()).unwrap();
    let png = Png::try_from(scrubbed.as_slice()).unwrap();
    assert!(png.chunk_by_type("zzAb").is_none());
    assert!(png.chunk_by_type("IHDR").is_some());
    assert!(png.chunk_by_type("IDAT").is_some());
    assert!(png.chunk_by_type("IEND").is_some());
}

#[test]
fn append_keeps_iend_last() {
    let img = Img::new(1, 1);
    let png = Png::from_img(&img).unwrap();
    let file = png.as_bytes();
    let with_message = encode(file.as_slice(), "zzAb", "x").unwrap();
    let png = Png::try_from(with_message.as_slice()).unwrap();
    let chunks = png.chunks();
    assert_eq!(chunks.len(), 4);
    assert_eq!(chunks[2].chunk_type().bytes(), *b"zzAb");
    assert_eq!(chunks[3].chunk_type().bytes(), *b"IEND");
}

#[test]
fn generate_produces_three_valid_images() {
    let images = pngme::commands::generate().unwrap();
    assert_eq!(images.len(), 3);
    let expected_widths = [600u32, 600, 250];
    for (file, expected) in images.iter().zip(expected_widths.iter()) {
        let png = Png::try_from(file.as_slice()).unwrap();
        assert!(png.chunk_by_type("IHDR").is_some());
        let img = Img::from_png(&png).unwrap();
        assert_eq!(img.width(), *expected);
    }
}

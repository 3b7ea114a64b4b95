use pngme::chunk::{Chunk, ChunkIter};

fn valid_chunk() -> Vec<u8> {
    let data_length: u32 = 11;
    let chunk_type = "ItEr".as_bytes();
    let message = "Hello World".as_bytes();
    let crc: u32 = 3520753346;

    data_length
        .to_be_bytes()
        .iter()
        .chain(chunk_type.iter())
        .chain(message.iter())
        .chain(crc.to_be_bytes().iter())
        .copied()
        .collect()
}

fn invalid_chunk() -> Vec<u8> {
    let data_length: u32 = 11; // Valid
    let chunk_type = "iter".as_bytes(); // Invalid
    let message = "Hello World".as_bytes();
    let crc: u32 = 1234; // Invalid

    data_length
        .to_be_bytes()
        .iter()
        .chain(chunk_type.iter())
        .chain(message.iter())
        .chain(crc.to_be_bytes().iter())
        .copied()
        .collect()
}

fn testing_chunk() -> Chunk {
    let data_length: u32 = 42;
    let chunk_type = "RuSt".as_bytes();
    let message_bytes = "This is where your secret message will be!".as_bytes();
    let crc: u32 = 2882656334;

    let chunk_data: Vec<u8> = data_length
        .to_be_bytes()
        .iter()
        .chain(chunk_type.iter())
        .chain(message_bytes.iter())
        .chain(crc.to_be_bytes().iter())
        .copied()
        .collect();

    Chunk::try_from(chunk_data.as_ref()).unwrap()
}

#[test]
fn test_valid_chunks() {
    let bytes: Vec<u8> = vec![valid_chunk(), valid_chunk(), valid_chunk()]
        .into_iter()
        .flatten()
        .collect();

    let ref_chunk = valid_chunk();
    let mut iter = ChunkIter::new(bytes.as_slice());
    while let Some(chunk) = iter.next() {
        assert!(chunk.is_ok());
        assert_eq!(chunk.unwrap().as_bytes().as_slice(), ref_chunk.as_slice());
    }
}

#[test]
fn test_invalid_chunks() {
    let bytes: Vec<u8> = vec![valid_chunk(), invalid_chunk(), valid_chunk()]
        .into_iter()
        .flatten()
        .collect();

    let ref_chunk = valid_chunk();
    let mut iter = ChunkIter::new(bytes.as_slice());

    let first = iter.next().unwrap();
    assert!(first.is_ok());
    assert_eq!(first.unwrap().as_bytes().as_slice(), ref_chunk.as_slice());

    let second = iter.next().unwrap();
    assert!(second.is_err());

    let third = iter.next();
    assert!(third.is_none());
}

#[test]
fn test_invalid_length() {
    let bytes = valid_chunk();
    let big_chunk: Vec<u8> = 12345678u32
        .to_be_bytes()
        .into_iter()
        .chain((&bytes[4..]).iter().copied())
        .chain(valid_chunk().into_iter())
        .collect();

    let mut iter = ChunkIter::new(big_chunk.as_slice());

    assert!(iter.next().unwrap().is_err());
    assert!(iter.next().is_none());
}

#[test]
fn test_empty_buffer() {
    assert!(ChunkIter::new(&[]).next().is_none());
}

#[test]
fn test_chunk_length() {
    let chunk = testing_chunk();
    assert_eq!(chunk.length(), 42);
}

#[test]
fn test_chunk_type() {
    let chunk = testing_chunk();
    assert_eq!(chunk.chunk_type().to_string(), String::from("RuSt"));
}

#[test]
fn test_chunk_string() {
    let chunk = testing_chunk();
    let chunk_string = chunk.data_as_string().unwrap();
    let expected_chunk_string = String::from("This is where your secret message will be!");
    assert_eq!(chunk_string, expected_chunk_string);
}

#[test]
fn test_chunk_crc() {
    let chunk = testing_chunk();
    assert_eq!(chunk.crc(), 2882656334);
}

#[test]
fn test_valid_chunk_from_bytes() {
    let data_length: u32 = 42;
    let chunk_type = "RuSt".as_bytes();
    let message_bytes = "This is where your secret message will be!".as_bytes();
    let crc: u32 = 2882656334;

    let chunk_data: Vec<u8> = data_length
        .to_be_bytes()
        .iter()
        .chain(chunk_type.iter())
        .chain(message_bytes.iter())
        .chain(crc.to_be_bytes().iter())
        .copied()
        .collect();

    let chunk = Chunk::try_from(chunk_data.as_ref()).unwrap();

    let chunk_string = chunk.data_as_string().unwrap();
    let expected_chunk_string = String::from("This is where your secret message will be!");

    assert_eq!(chunk.length(), 42);
    assert_eq!(chunk.chunk_type().to_string(), String::from("RuSt"));
    assert_eq!(chunk_string, expected_chunk_string);
    assert_eq!(chunk.crc(), 2882656334);
}

#[test]
fn test_invalid_chunk_from_bytes() {
    let data_length: u32 = 42;
    let chunk_type = "RuSt".as_bytes();
    let message_bytes = "This is where your secret message will be!".as_bytes();
    let crc: u32 = 2882656333;

    let chunk_data: Vec<u8> = data_length
        .to_be_bytes()
        .iter()
        .chain(chunk_type.iter())
        .chain(message_bytes.iter())
        .chain(crc.to_be_bytes().iter())
        .copied()
        .collect();

    let chunk = Chunk::try_from(chunk_data.as_ref());

    assert!(chunk.is_err());
}

#[test]
pub fn test_chunk_trait_impls() {
    let data_length: u32 = 42;
    let chunk_type = "RuSt".as_bytes();
    let message_bytes = "This is where your secret message will be!".as_bytes();
    let crc: u32 = 2882656334;

    let chunk_data: Vec<u8> = data_length
        .to_be_bytes()
        .iter()
        .chain(chunk_type.iter())
        .chain(message_bytes.iter())
        .chain(crc.to_be_bytes().iter())
        .copied()
        .collect();

    let chunk: Chunk = Chunk::try_from(chunk_data.as_ref()).unwrap();

    let _chunk_string = chunk.to_string();
}

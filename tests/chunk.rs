use pngme::chunk::{Chunk, DecodeError, ParseError};
use pngme::chunk_type::ChunkType;
use std::str::FromStr;

fn testing_chunk() -> Chunk {
    let data_length: u32 = 42;
    let chunk_type = "RuSt".as_bytes();
    let message_bytes = "This is where your secret message will be!".as_bytes();
    let crc: u32 = 2882656334;

    let chunk_data: Vec<u8> = data_length
        .to_be_bytes()
        .iter()
        .chain(chunk_type.iter())
        .chain(message_bytes.iter())
        .chain(crc.to_be_bytes().iter())
        .copied()
        .collect();

    Chunk::try_from(chunk_data.as_ref()).unwrap()
}

fn record(len: u32, ty: &[u8], data: &[u8], crc: u32) -> Vec<u8> {
    len.to_be_bytes()
        .iter()
        .chain(ty.iter())
        .chain(data.iter())
        .chain(crc.to_be_bytes().iter())
        .copied()
        .collect()
}

#[test]
fn test_new_chunk() {
    let chunk_type = ChunkType::from_str("RuSt").unwrap();
    let data = "This is where your secret message will be!".as_bytes().to_vec();
    let chunk = Chunk::new(chunk_type, data);
    assert_eq!(chunk.length(), 42);
    assert_eq!(chunk.crc(), 2882656334);
}

#[test]
fn test_chunk_length() {
    let chunk = testing_chunk();
    assert_eq!(chunk.length(), 42);
}

#[test]
fn test_chunk_type() {
    let chunk = testing_chunk();
    assert_eq!(chunk.chunk_type().to_string(), String::from("RuSt"));
}

#[test]
fn test_chunk_string() {
    let chunk = testing_chunk();
    let chunk_string = chunk.data_as_string().unwrap();
    let expected_chunk_string = String::from("This is where your secret message will be!");
    assert_eq!(chunk_string, expected_chunk_string);
}

#[test]
fn test_chunk_crc() {
    let chunk = testing_chunk();
    assert_eq!(chunk.crc(), 2882656334);
}

#[test]
fn test_valid_chunk_from_bytes() {
    let data_length: u32 = 42;
    let chunk_type = "RuSt".as_bytes();
    let message_bytes = "This is where your secret message will be!".as_bytes();
    let crc: u32 = 2882656334;

    let chunk_data: Vec<u8> = data_length
        .to_be_bytes()
        .iter()
        .chain(chunk_type.iter())
        .chain(message_bytes.iter())
        .chain(crc.to_be_bytes().iter())
        .copied()
        .collect();

    let chunk = Chunk::try_from(chunk_data.as_ref()).unwrap();

    let chunk_string = chunk.data_as_string().unwrap();
    let expected_chunk_string = String::from("This is where your secret message will be!");

    assert_eq!(chunk.length(), 42);
    assert_eq!(chunk.chunk_type().to_string(), String::from("RuSt"));
    assert_eq!(chunk_string, expected_chunk_string);
    assert_eq!(chunk.crc(), 2882656334);
}

#[test]
fn test_invalid_chunk_from_bytes() {
    let data_length: u32 = 42;
    let chunk_type = "RuSt".as_bytes();
    let message_bytes = "This is where your secret message will be!".as_bytes();
    let crc: u32 = 2882656333;

    let chunk_data: Vec<u8> = data_length
        .to_be_bytes()
        .iter()
        .chain(chunk_type.iter())
        .chain(message_bytes.iter())
        .chain(crc.to_be_bytes().iter())
        .copied()
        .collect();

    let chunk = Chunk::try_from(chunk_data.as_ref());

    assert!(chunk.is_err());
}

#[test]
pub fn test_chunk_trait_impls() {
    let data_length: u32 = 42;
    let chunk_type = "RuSt".as_bytes();
    let message_bytes = "This is where your secret message will be!".as_bytes();
    let crc: u32 = 2882656334;

    let chunk_data: Vec<u8> = data_length
        .to_be_bytes()
        .iter()
        .chain(chunk_type.iter())
        .chain(message_bytes.iter())
        .chain(crc.to_be_bytes().iter())
        .copied()
        .collect();

    let chunk: Chunk = Chunk::try_from(chunk_data.as_ref()).unwrap();

    let _chunk_string = chunk.chunk_type().to_string();
}

#[test]
fn serialized_chunk_layout() {
    let chunk = testing_chunk();
    let bytes = chunk.as_bytes();
    let msg = "This is where your secret message will be!".as_bytes();
    assert_eq!(bytes, record(42, b"RuSt", msg, 2882656334));
    assert_eq!(bytes.len(), 12 + 42);
}

#[test]
fn empty_payload_chunk() {
    let chunk = Chunk::new(ChunkType::from_text("IEND").unwrap(), vec![]);
    assert_eq!(chunk.length(), 0);
    // the CRC-32 of the four bytes "IEND"
    assert_eq!(chunk.crc(), 0xAE426082);
    let bytes = chunk.as_bytes();
    assert_eq!(bytes, vec![0, 0, 0, 0, 73, 69, 78, 68, 0xAE, 0x42, 0x60, 0x82]);
    let back = Chunk::try_from(bytes.as_ref()).unwrap();
    assert_eq!(back.data(), &[] as &[u8]);
}

#[test]
fn each_parse_error_kind() {
    let msg = b"hello";
    let good = record(5, b"ruSt", msg, Chunk::new(ChunkType::from_text("ruSt").unwrap(), msg.to_vec()).crc());
    assert!(Chunk::try_from(good.as_ref()).is_ok());
    assert_eq!(Chunk::try_from(&good[..11]).err(), Some(ParseError::Truncated));
    assert_eq!(Chunk::try_from(&good[..16]).err(), Some(ParseError::LengthMismatch));
    let mut bad_type = good.clone();
    bad_type[5] = b'1';
    assert_eq!(Chunk::try_from(bad_type.as_ref()).err(), Some(ParseError::InvalidType));
    let mut bad_crc = good.clone();
    bad_crc[16] ^= 0xff;
    assert_eq!(Chunk::try_from(bad_crc.as_ref()).err(), Some(ParseError::ChecksumMismatch));
}

#[test]
fn single_bit_flips_are_detected() {
    let good = testing_chunk().as_bytes();
    for i in 0..good.len() {
        for k in 0..8 {
            let mut b = good.clone();
            b[i] ^= 1 << k;
            let r = Chunk::try_from(b.as_ref()).err();
            if i < 4 {
                assert_eq!(r, Some(ParseError::LengthMismatch), "byte {} bit {}", i, k);
            } else if i >= good.len() - 4 {
                assert_eq!(r, Some(ParseError::ChecksumMismatch), "byte {} bit {}", i, k);
            } else {
                assert!(
                    r == Some(ParseError::ChecksumMismatch) || r == Some(ParseError::InvalidType),
                    "byte {} bit {}",
                    i,
                    k
                );
            }
        }
    }
}

#[test]
fn binary_payload_is_not_text() {
    let chunk = Chunk::new(ChunkType::from_text("biNa").unwrap(), vec![0xff, 0xfe, 0x00]);
    assert_eq!(chunk.data_as_string(), Err(DecodeError::NotUtf8Text));
    let text = Chunk::new(ChunkType::from_text("teXt").unwrap(), "héllo".as_bytes().to_vec());
    assert_eq!(text.data_as_string(), Ok(String::from("héllo")));
}

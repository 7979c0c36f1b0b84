use pngme::chunk_type::{ChunkType, ChunkTypeError};
use std::convert::TryFrom;
use std::str::FromStr;

#[test]
pub fn test_chunk_type_from_bytes() {
    let expected = [82, 117, 83, 116];
    let actual = ChunkType::try_from([82, 117, 83, 116]).unwrap();

    assert_eq!(expected, actual.bytes());
}

#[test]
pub fn test_chunk_type_from_str() {
    let expected = ChunkType::try_from([82, 117, 83, 116]).unwrap();
    let actual = ChunkType::from_str("RuSt").unwrap();
    assert_eq!(expected, actual);
}

#[test]
pub fn test_chunk_type_is_critical() {
    let chunk = ChunkType::from_str("RuSt").unwrap();
    assert!(chunk.is_critical());
}

#[test]
pub fn test_chunk_type_is_not_critical() {
    let chunk = ChunkType::from_str("ruSt").unwrap();
    assert!(!chunk.is_critical());
}

#[test]
pub fn test_chunk_type_is_public() {
    let chunk = ChunkType::from_str("RUSt").unwrap();
    assert!(chunk.is_public());
}

#[test]
pub fn test_chunk_type_is_not_public() {
    let chunk = ChunkType::from_str("RuSt").unwrap();
    assert!(!chunk.is_public());
}

#[test]
pub fn test_chunk_type_is_reserved_bit_valid() {
    let chunk = ChunkType::from_str("RuSt").unwrap();
    assert!(chunk.is_reserved_bit_valid());
}

#[test]
pub fn test_chunk_type_is_reserved_bit_invalid() {
    let chunk = ChunkType::from_str("Rust").unwrap();
    assert!(!chunk.is_reserved_bit_valid());
}

#[test]
pub fn test_chunk_type_is_safe_to_copy() {
    let chunk = ChunkType::from_str("RuSt").unwrap();
    assert!(chunk.is_safe_to_copy());
}

#[test]
pub fn test_chunk_type_is_unsafe_to_copy() {
    let chunk = ChunkType::from_str("RuST").unwrap();
    assert!(!chunk.is_safe_to_copy());
}

#[test]
pub fn test_valid_chunk_is_valid() {
    let chunk = ChunkType::from_str("RuSt").unwrap();
    assert!(chunk.is_valid());
}

#[test]
pub fn test_invalid_chunk_is_valid() {
    let chunk = ChunkType::from_str("Rust").unwrap();
    assert!(!chunk.is_valid());

    let chunk = ChunkType::from_str("Ru1t");
    assert!(chunk.is_err());
}

#[test]
pub fn test_chunk_type_string() {
    let chunk = ChunkType::from_str("RuSt").unwrap();
    assert_eq!(&chunk.to_string(), "RuSt");
}

#[test]
pub fn test_chunk_type_trait_impls() {
    let chunk_type_1: ChunkType = TryFrom::try_from([82, 117, 83, 116]).unwrap();
    let chunk_type_2: ChunkType = FromStr::from_str("RuSt").unwrap();
    let _chunk_string = chunk_type_1.to_string();
    let _are_chunks_equal = chunk_type_1 == chunk_type_2;
}

#[test]
fn non_alphabetic_byte_is_refused() {
    assert_eq!(ChunkType::from_bytes([82, 117, 0x40, 116]), Err(ChunkTypeError::NonAlphabeticByte));
    assert_eq!(ChunkType::from_bytes([82, 117, 0x5b, 116]), Err(ChunkTypeError::NonAlphabeticByte));
    assert_eq!(ChunkType::from_text("Ru1t"), Err(ChunkTypeError::NonAlphabeticByte));
}

#[test]
fn wrong_text_length_is_refused() {
    assert_eq!(ChunkType::from_text("RuS"), Err(ChunkTypeError::WrongLength));
    assert_eq!(ChunkType::from_text("RuStY"), Err(ChunkTypeError::WrongLength));
    assert_eq!(ChunkType::from_text(""), Err(ChunkTypeError::WrongLength));
    // four characters but five bytes
    assert_eq!(ChunkType::from_text("Ruéa"), Err(ChunkTypeError::WrongLength));
}

#[test]
fn validity_follows_third_byte_case() {
    for code in ["abCd", "ABCD", "aBCd", "AbCD"] {
        assert!(ChunkType::from_text(code).unwrap().is_valid(), "{}", code);
    }
    for code in ["abcd", "ABcD", "aBcd", "Abcd"] {
        let ct = ChunkType::from_text(code).unwrap();
        assert!(!ct.is_valid(), "{}", code);
        assert!(!ct.is_reserved_bit_valid(), "{}", code);
    }
}

#[test]
fn matches_text_compares_the_four_letters() {
    let ct = ChunkType::from_text("teXt").unwrap();
    assert!(ct.matches_text("teXt"));
    assert!(!ct.matches_text("text"));
    assert!(!ct.matches_text("teX"));
    assert!(!ct.matches_text("teXtt"));
}

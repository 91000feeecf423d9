use pngme::ChunkType;
use pngme::PngError;

#[test]
pub fn test_chunk_type_from_bytes() {
    let expected = [82, 117, 83, 116];
    let actual = ChunkType::parse_bytes([82, 117, 83, 116]).unwrap();

    assert_eq!(expected, actual.bytes());
}

#[test]
pub fn test_chunk_type_from_str() {
    let expected = ChunkType::parse_bytes([82, 117, 83, 116]).unwrap();
    let actual = ChunkType::parse_text("RuSt").unwrap();
    assert_eq!(expected, actual);
}

#[test]
pub fn test_chunk_type_is_critical() {
    let chunk = ChunkType::parse_text("RuSt").unwrap();
    assert!(chunk.is_critical());
}

#[test]
pub fn test_chunk_type_is_not_critical() {
    let chunk = ChunkType::parse_text("ruSt").unwrap();
    assert!(!chunk.is_critical());
}

#[test]
pub fn test_chunk_type_is_public() {
    let chunk = ChunkType::parse_text("RUSt").unwrap();
    assert!(chunk.is_public());
}

#[test]
pub fn test_chunk_type_is_not_public() {
    let chunk = ChunkType::parse_text("RuSt").unwrap();
    assert!(!chunk.is_public());
}

#[test]
pub fn test_chunk_type_is_reserved_bit_valid() {
    let chunk = ChunkType::parse_text("RuSt").unwrap();
    assert!(chunk.is_reserved_bit_valid());
}

#[test]
pub fn test_chunk_type_is_reserved_bit_invalid() {
    let chunk = ChunkType::parse_text("Rust").unwrap();
    assert!(!chunk.is_reserved_bit_valid());
}

#[test]
pub fn test_chunk_type_is_safe_to_copy() {
    let chunk = ChunkType::parse_text("RuSt").unwrap();
    assert!(chunk.is_safe_to_copy());
}

#[test]
pub fn test_chunk_type_is_unsafe_to_copy() {
    let chunk = ChunkType::parse_text("RuST").unwrap();
    assert!(!chunk.is_safe_to_copy());
}

#[test]
pub fn test_valid_chunk_is_valid() {
    let chunk = ChunkType::parse_text("RuSt").unwrap();
    assert!(chunk.is_valid());
}

#[test]
pub fn test_invalid_chunk_is_valid() {
    let chunk = ChunkType::parse_text("Rust").unwrap();
    assert!(!chunk.is_valid());

    let chunk = ChunkType::parse_text("Ru1t");
    assert!(chunk.is_err());
}

#[test]
pub fn test_chunk_type_string() {
    let chunk = ChunkType::parse_text("RuSt").unwrap();
    assert_eq!(&chunk.to_text(), "RuSt");
}

#[test]
pub fn test_chunk_type_trait_impls() {
    let chunk_type_1: ChunkType = ChunkType::parse_bytes([82, 117, 83, 116]).unwrap();
    let chunk_type_2: ChunkType = ChunkType::parse_text("RuSt").unwrap();
    let _chunk_string = chunk_type_1.to_text();
    let _are_chunks_equal = chunk_type_1 == chunk_type_2;
}

#[test]
fn test_digit_type_code_is_invalid_type_code() {
    let r = ChunkType::parse_text("Ru1t");
    assert_eq!(r.unwrap_err(), PngError::InvalidTypeCode);
    let r = ChunkType::parse_bytes([82, 117, 49, 116]);
    assert_eq!(r.unwrap_err(), PngError::InvalidTypeCode);
}

#[test]
fn test_short_and_long_text_rejected() {
    assert_eq!(ChunkType::parse_text("Ru").unwrap_err(), PngError::InvalidTypeCode);
    assert_eq!(ChunkType::parse_text("RuStx").unwrap_err(), PngError::InvalidTypeCode);
    assert_eq!(ChunkType::parse_text("").unwrap_err(), PngError::InvalidTypeCode);
}

#[test]
fn test_validity_depends_on_reserved_bit_alone() {
    // Same reserved byte case, all combinations of the other three case bits.
    let valid = ["RUST", "rUST", "RuST", "RUSt", "ruST", "rUSt", "RuSt", "ruSt"];
    for text in valid {
        let t = ChunkType::parse_text(text).unwrap();
        assert!(t.is_valid(), "{}", text);
    }
    let invalid = ["RUsT", "rUsT", "RusT", "RUst", "rusT", "rUst", "Rust", "rust"];
    for text in invalid {
        let t = ChunkType::parse_text(text).unwrap();
        assert!(!t.is_valid(), "{}", text);
    }
}

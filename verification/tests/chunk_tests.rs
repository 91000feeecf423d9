use pngme::Chunk;
use pngme::ChunkType;
use pngme::PngError;

fn testing_chunk() -> Chunk {
    let data_length: u32 = 42;
    let chunk_type = "RuSt".as_bytes();
    let message_bytes = "This is where your secret message will be!".as_bytes();
    let crc: u32 = 2882656334;

    let chunk_data: Vec<u8> = data_length
        .to_be_bytes()
        .iter()
        .chain(chunk_type.iter())
        .chain(message_bytes.iter())
        .chain(crc.to_be_bytes().iter())
        .copied()
        .collect();

    Chunk::from_bytes(chunk_data.as_ref()).unwrap()
}

#[test]
fn test_new_chunk() {
    let chunk_type = ChunkType::parse_text("RuSt").unwrap();
    let data = "This is where your secret message will be!".as_bytes().to_vec();
    let chunk = Chunk::new(chunk_type, data);
    assert_eq!(chunk.length(), 42);
    assert_eq!(chunk.crc(), 2882656334);
}

#[test]
fn test_chunk_length() {
    let chunk = testing_chunk();
    assert_eq!(chunk.length(), 42);
}

#[test]
fn test_chunk_type() {
    let chunk = testing_chunk();
    assert_eq!(chunk.chunk_type().to_text(), String::from("RuSt"));
}

#[test]
fn test_chunk_string() {
    let chunk = testing_chunk();
    let chunk_string = chunk.data_as_string().unwrap();
    let expected_chunk_string = String::from("This is where your secret message will be!");
    assert_eq!(chunk_string, expected_chunk_string);
}

#[test]
fn test_chunk_crc() {
    let chunk = testing_chunk();
    assert_eq!(chunk.crc(), 2882656334);
}

#[test]
fn test_valid_chunk_from_bytes() {
    let data_length: u32 = 42;
    let chunk_type = "RuSt".as_bytes();
    let message_bytes = "This is where your secret message will be!".as_bytes();
    let crc: u32 = 2882656334;

    let chunk_data: Vec<u8> = data_length
        .to_be_bytes()
        .iter()
        .chain(chunk_type.iter())
        .chain(message_bytes.iter())
        .chain(crc.to_be_bytes().iter())
        .copied()
        .collect();

    let chunk = Chunk::from_bytes(chunk_data.as_ref()).unwrap();

    let chunk_string = chunk.data_as_string().unwrap();
    let expected_chunk_string = String::from("This is where your secret message will be!");

    assert_eq!(chunk.length(), 42);
    assert_eq!(chunk.chunk_type().to_text(), String::from("RuSt"));
    assert_eq!(chunk_string, expected_chunk_string);
    assert_eq!(chunk.crc(), 2882656334);
}

#[test]
fn test_invalid_chunk_from_bytes() {
    let data_length: u32 = 42;
    let chunk_type = "RuSt".as_bytes();
    let message_bytes = "This is where your secret message will be!".as_bytes();
    let crc: u32 = 2882656333;

    let chunk_data: Vec<u8> = data_length
        .to_be_bytes()
        .iter()
        .chain(chunk_type.iter())
        .chain(message_bytes.iter())
        .chain(crc.to_be_bytes().iter())
        .copied()
        .collect();

    let chunk = Chunk::from_bytes(chunk_data.as_ref());

    assert!(chunk.is_err());
}

#[test]
pub fn test_chunk_trait_impls() {
    let data_length: u32 = 42;
    let chunk_type = "RuSt".as_bytes();
    let message_bytes = "This is where your secret message will be!".as_bytes();
    let crc: u32 = 2882656334;

    let chunk_data: Vec<u8> = data_length
        .to_be_bytes()
        .iter()
        .chain(chunk_type.iter())
        .chain(message_bytes.iter())
        .chain(crc.to_be_bytes().iter())
        .copied()
        .collect();

    let chunk: Chunk = Chunk::from_bytes(chunk_data.as_ref()).unwrap();

    let _chunk_string = chunk.data_as_string().unwrap();
}

#[test]
fn test_chunk_round_trip() {
    let chunk_type = ChunkType::parse_text("teSt").unwrap();
    let payload = vec![0u8, 1, 2, 254, 255, 7];
    let chunk = Chunk::new(chunk_type, payload.clone());
    let bytes = chunk.as_bytes();
    let back = Chunk::from_bytes(bytes.as_ref()).unwrap();
    assert_eq!(back.chunk_type().bytes(), chunk.chunk_type().bytes());
    assert_eq!(back.data(), payload.as_slice());
    assert_eq!(back.crc(), chunk.crc());
}

#[test]
fn test_empty_payload_round_trip() {
    let chunk_type = ChunkType::parse_text("abCd").unwrap();
    let chunk = Chunk::new(chunk_type, Vec::new());
    assert_eq!(chunk.length(), 0);
    let bytes = chunk.as_bytes();
    assert_eq!(bytes.len(), 12);
    let back = Chunk::from_bytes(bytes.as_ref()).unwrap();
    assert_eq!(back.data(), &[] as &[u8]);
}

#[test]
fn test_chunk_too_short() {
    let buf = [0u8; 11];
    assert_eq!(Chunk::from_bytes(&buf).unwrap_err(), PngError::TooShort);
    let empty: [u8; 0] = [];
    assert_eq!(Chunk::from_bytes(&empty).unwrap_err(), PngError::TooShort);
}

#[test]
fn test_chunk_bad_type_byte() {
    let chunk_type = ChunkType::parse_text("RuSt").unwrap();
    let chunk = Chunk::new(chunk_type, vec![1, 2, 3]);
    let mut bytes = chunk.as_bytes();
    bytes[5] = b'1';
    assert_eq!(Chunk::from_bytes(bytes.as_ref()).unwrap_err(), PngError::InvalidTypeCode);
}

#[test]
fn test_checksum_field_tamper() {
    let chunk_type = ChunkType::parse_text("RuSt").unwrap();
    let chunk = Chunk::new(chunk_type, b"payload".to_vec());
    let bytes = chunk.as_bytes();
    let n = bytes.len();
    // Flip every single bit of the 4-byte checksum field in turn.
    for pos in (n - 4)..n {
        for bit in 0..8 {
            let mut tampered = bytes.clone();
            tampered[pos] ^= 1u8 << bit;
            assert_eq!(
                Chunk::from_bytes(tampered.as_ref()).unwrap_err(),
                PngError::ChecksumMismatch
            );
        }
    }
}

#[test]
fn test_payload_tamper() {
    let chunk_type = ChunkType::parse_text("RuSt").unwrap();
    let chunk = Chunk::new(chunk_type, b"payload".to_vec());
    let bytes = chunk.as_bytes();
    // Flip every single bit of every payload byte in turn.
    for pos in 8..(bytes.len() - 4) {
        for bit in 0..8 {
            let mut tampered = bytes.clone();
            tampered[pos] ^= 1u8 << bit;
            assert_eq!(
                Chunk::from_bytes(tampered.as_ref()).unwrap_err(),
                PngError::ChecksumMismatch
            );
        }
    }
}

#[test]
fn test_data_as_string_not_utf8() {
    let chunk_type = ChunkType::parse_text("RuSt").unwrap();
    let chunk = Chunk::new(chunk_type, vec![0xff, 0xfe, 0x41]);
    assert_eq!(chunk.data_as_string().unwrap_err(), PngError::NotUtf8);
}

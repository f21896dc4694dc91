use pngme::chunk::Chunk;
use pngme::chunk_type::ChunkType;
use pngme::error::PngError;

fn testing_chunk() -> Chunk {
    let data_length: u32 = 42;
    let chunk_type = "RuSt".as_bytes();
    let message_bytes = "This is where your secret message will be!".as_bytes();
    let crc: u32 = 2882656334;

    let data: Vec<u8> = data_length
        .to_be_bytes()
        .iter()
        .chain(chunk_type.iter())
        .chain(message_bytes.iter())
        .chain(crc.to_be_bytes().iter())
        .copied()
        .collect();

    Chunk::try_from(data.as_ref()).unwrap()
}

#[test]
fn test_new_chunk() {
    let chunk_type = ChunkType::from_str("RuSt").unwrap();
    let data = "This is where your secret message will be!"
        .as_bytes()
        .to_vec();
    let chunk = Chunk::new(chunk_type, data);
    assert_eq!(chunk.length(), 42);
    assert_eq!(chunk.crc(), 2882656334);
}

#[test]
fn test_chunk_length() {
    let chunk = testing_chunk();
    assert_eq!(chunk.length(), 42);
}

#[test]
fn test_chunk_type() {
    let chunk = testing_chunk();
    assert_eq!(chunk.chunk_type().to_string(), String::from("RuSt"));
}

#[test]
fn test_chunk_string() {
    let chunk = testing_chunk();
    let chunk_string = chunk.data_as_string();
    let expected_chunk_string = String::from("This is where your secret message will be!");
    assert_eq!(chunk_string, expected_chunk_string);
}

#[test]
fn test_chunk_crc() {
    let chunk = testing_chunk();
    assert_eq!(chunk.crc(), 2882656334);
}

#[test]
fn test_valid_chunk_from_bytes() {
    let data_length: u32 = 42;
    let chunk_type = "RuSt".as_bytes();
    let message_bytes = "This is where your secret message will be!".as_bytes();
    let crc: u32 = 2882656334;

    let data: Vec<u8> = data_length
        .to_be_bytes()
        .iter()
        .chain(chunk_type.iter())
        .chain(message_bytes.iter())
        .chain(crc.to_be_bytes().iter())
        .copied()
        .collect();

    let chunk = Chunk::try_from(data.as_ref()).unwrap();

    let chunk_string = chunk.data_as_string();
    let expected_chunk_string = String::from("This is where your secret message will be!");

    assert_eq!(chunk.length(), 42);
    assert_eq!(chunk.chunk_type().to_string(), String::from("RuSt"));
    assert_eq!(chunk_string, expected_chunk_string);
    assert_eq!(chunk.crc(), 2882656334);
}

#[test]
fn test_invalid_chunk_from_bytes() {
    let data_length: u32 = 42;
    let chunk_type = "RuSt".as_bytes();
    let message_bytes = "This is where your secret message will be!".as_bytes();
    let crc: u32 = 2882656333;

    let data: Vec<u8> = data_length
        .to_be_bytes()
        .iter()
        .chain(chunk_type.iter())
        .chain(message_bytes.iter())
        .chain(crc.to_be_bytes().iter())
        .copied()
        .collect();

    let chunk = Chunk::try_from(data.as_ref());

    assert!(chunk.is_err());
}

#[test]
pub fn test_chunk_trait_impls() {
    let data_length: u32 = 42;
    let chunk_type = "RuSt".as_bytes();
    let message_bytes = "This is where your secret message will be!".as_bytes();
    let crc: u32 = 2882656334;

    let data: Vec<u8> = data_length
        .to_be_bytes()
        .iter()
        .chain(chunk_type.iter())
        .chain(message_bytes.iter())
        .chain(crc.to_be_bytes().iter())
        .copied()
        .collect();

    let chunk: Chunk = Chunk::try_from(data.as_ref()).unwrap();

    let _chunk_string = chunk.to_display_string();
}

#[test]
fn test_chunk_round_trip_bytes() {
    let chunk_type = ChunkType::from_str("RuSt").unwrap();
    let data = "This is where your secret message will be!"
        .as_bytes()
        .to_vec();
    let chunk = Chunk::new(chunk_type, data.clone());
    let encoded = chunk.as_bytes();
    assert_eq!(encoded.len(), 12 + data.len());
    let decoded = Chunk::try_from(encoded.as_ref()).unwrap();
    assert_eq!(decoded.length(), chunk.length());
    assert_eq!(decoded.chunk_type().bytes(), chunk.chunk_type().bytes());
    assert_eq!(decoded.data(), chunk.data());
    assert_eq!(decoded.crc(), chunk.crc());
}

#[test]
fn test_any_single_bit_flip_fails_decode() {
    let chunk_type = ChunkType::from_str("RuSt").unwrap();
    let data = "This is where your secret message will be!"
        .as_bytes()
        .to_vec();
    let chunk = Chunk::new(chunk_type, data);
    let encoded = chunk.as_bytes();
    for byte_index in 0..encoded.len() {
        for bit in 0..8 {
            let mut corrupted = encoded.clone();
            corrupted[byte_index] ^= 1u8 << bit;
            assert!(Chunk::try_from(corrupted.as_ref()).is_err());
        }
    }
}

#[test]
fn test_truncated_chunk_is_rejected() {
    let short: Vec<u8> = vec![0, 0, 0, 5];
    assert_eq!(
        Chunk::try_from(short.as_ref()).unwrap_err(),
        PngError::TruncatedChunk
    );
    // A declared length larger than what remains is rejected too.
    let declared: Vec<u8> = vec![0, 0, 0, 99, 82, 117, 83, 116, 1, 2, 3, 4, 5, 6, 7, 8];
    assert_eq!(
        Chunk::try_from(declared.as_ref()).unwrap_err(),
        PngError::TruncatedChunk
    );
}

#[test]
fn test_empty_data_chunk() {
    let chunk_type = ChunkType::from_str("teXt").unwrap();
    let chunk = Chunk::new(chunk_type, Vec::new());
    assert_eq!(chunk.length(), 0);
    let encoded = chunk.as_bytes();
    assert_eq!(encoded.len(), 12);
    let decoded = Chunk::try_from(encoded.as_ref()).unwrap();
    assert_eq!(decoded.crc(), chunk.crc());
    assert_eq!(decoded.data_as_string(), "");
}

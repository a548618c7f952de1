use pngme::chunk::{Chunk, ChunkError};
use pngme::chunk_type::{ChunkType, InvalidChunkType};
use std::str::FromStr;

fn testing_chunk() -> Chunk {
    let data_length: u32 = 42;
    let chunk_type = "RuSt".as_bytes();
    let message_bytes = "This is where your secret message will be!".as_bytes();
    let crc: u32 = 2882656334;

    let chunk_data: Vec<u8> = data_length
        .to_be_bytes()
        .iter()
        .chain(chunk_type.iter())
        .chain(message_bytes.iter())
        .chain(crc.to_be_bytes().iter())
        .copied()
        .collect();

    Chunk::try_from(chunk_data.as_ref()).unwrap()
}

fn record(length: u32, chunk_type: &[u8], data: &[u8], crc: u32) -> Vec<u8> {
    length
        .to_be_bytes()
        .iter()
        .chain(chunk_type.iter())
        .chain(data.iter())
        .chain(crc.to_be_bytes().iter())
        .copied()
        .collect()
}

#[test]
fn test_new_chunk() {
    let chunk_type = ChunkType::from_str("RuSt").unwrap();
    let data = "This is where your secret message will be!"
        .as_bytes()
        .to_vec();
    let chunk = Chunk::new(chunk_type, data);
    assert_eq!(chunk.length(), 42);
    assert_eq!(chunk.crc(), 2882656334);
}

#[test]
fn test_chunk_length() {
    let chunk = testing_chunk();
    assert_eq!(chunk.length(), 42);
}

#[test]
fn test_chunk_type() {
    let chunk = testing_chunk();
    assert_eq!(chunk.chunk_type().to_string(), String::from("RuSt"));
}

#[test]
fn test_chunk_string() {
    let chunk = testing_chunk();
    let chunk_string = chunk.data_as_string().unwrap();
    let expected_chunk_string = String::from("This is where your secret message will be!");
    assert_eq!(chunk_string, expected_chunk_string);
}

#[test]
fn test_chunk_crc() {
    let chunk = testing_chunk();
    assert_eq!(chunk.crc(), 2882656334);
}

#[test]
fn test_valid_chunk_from_bytes() {
    let data_length: u32 = 42;
    let chunk_type = "RuSt".as_bytes();
    let message_bytes = "This is where your secret message will be!".as_bytes();
    let crc: u32 = 2882656334;

    let chunk_data: Vec<u8> = data_length
        .to_be_bytes()
        .iter()
        .chain(chunk_type.iter())
        .chain(message_bytes.iter())
        .chain(crc.to_be_bytes().iter())
        .copied()
        .collect();

    let chunk = Chunk::try_from(chunk_data.as_ref()).unwrap();

    let chunk_string = chunk.data_as_string().unwrap();
    let expected_chunk_string = String::from("This is where your secret message will be!");

    assert_eq!(chunk.length(), 42);
    assert_eq!(chunk.chunk_type().to_string(), String::from("RuSt"));
    assert_eq!(chunk_string, expected_chunk_string);
    assert_eq!(chunk.crc(), 2882656334);
}

#[test]
fn test_invalid_chunk_from_bytes() {
    let data_length: u32 = 42;
    let chunk_type = "RuSt".as_bytes();
    let message_bytes = "This is where your secret message will be!".as_bytes();
    let crc: u32 = 2882656333;

    let chunk_data: Vec<u8> = data_length
        .to_be_bytes()
        .iter()
        .chain(chunk_type.iter())
        .chain(message_bytes.iter())
        .chain(crc.to_be_bytes().iter())
        .copied()
        .collect();

    let chunk = Chunk::try_from(chunk_data.as_ref());

    assert!(chunk.is_err());
}

#[test]
pub fn test_chunk_trait_impls() {
    let data_length: u32 = 42;
    let chunk_type = "RuSt".as_bytes();
    let message_bytes = "This is where your secret message will be!".as_bytes();
    let crc: u32 = 2882656334;

    let chunk_data: Vec<u8> = data_length
        .to_be_bytes()
        .iter()
        .chain(chunk_type.iter())
        .chain(message_bytes.iter())
        .chain(crc.to_be_bytes().iter())
        .copied()
        .collect();

    let chunk: Chunk = TryFrom::try_from(chunk_data.as_ref()).unwrap();

    let _chunk_string = format!("{}", chunk.to_string());
}

#[test]
fn wrong_stored_checksum_is_a_crc_mismatch() {
    let message = "This is where your secret message will be!".as_bytes();
    let bytes = record(42, b"RuSt", message, 2882656333);
    assert_eq!(Chunk::try_from(bytes.as_ref()).unwrap_err(), ChunkError::CrcMismatch);
}

#[test]
fn checksum_is_the_crc_32_of_png() {
    // Every PNG file ends in this IEND record.
    let end = Chunk::new(ChunkType::try_from(*b"IEND").unwrap(), Vec::new());
    assert_eq!(end.crc(), 0xAE42_6082);
    assert_eq!(end.as_bytes(), vec![0, 0, 0, 0, 73, 69, 78, 68, 0xAE, 0x42, 0x60, 0x82]);
    // The check value of CRC-32/ISO-HDLC is the checksum of "123456789".
    let check = Chunk::new(ChunkType::from_str("abcd").unwrap(), Vec::new());
    assert_ne!(check.crc(), 0);
}

#[test]
fn checksum_covers_type_code_then_payload() {
    let a = Chunk::new(ChunkType::from_str("RuSt").unwrap(), b"ab".to_vec());
    let b = Chunk::new(ChunkType::from_str("RuSt").unwrap(), b"ba".to_vec());
    let c = Chunk::new(ChunkType::from_str("RuSu").unwrap(), b"ab".to_vec());
    assert_ne!(a.crc(), b.crc());
    assert_ne!(a.crc(), c.crc());
    assert_eq!(a.crc(), a.clone().crc());
}

#[test]
fn byte_form_is_length_type_payload_checksum() {
    let message = "This is where your secret message will be!".as_bytes();
    let chunk = Chunk::new(ChunkType::from_str("RuSt").unwrap(), message.to_vec());
    let bytes = chunk.as_bytes();
    assert_eq!(bytes.len(), 12 + 42);
    assert_eq!(&bytes[0..4], &[0, 0, 0, 42]);
    assert_eq!(&bytes[4..8], &[82, 117, 83, 116]);
    assert_eq!(&bytes[8..50], message);
    assert_eq!(&bytes[50..54], &2882656334u32.to_be_bytes());
    assert_eq!(bytes, record(42, b"RuSt", message, 2882656334));
}

#[test]
fn encode_record_takes_the_checksum_it_is_given() {
    let chunk_type = ChunkType::from_str("RuSt").unwrap();
    let bytes = Chunk::encode_record(&chunk_type, &[1, 2, 3], 0x0102_0304);
    assert_eq!(bytes, vec![0, 0, 0, 3, 82, 117, 83, 116, 1, 2, 3, 1, 2, 3, 4]);
}

#[test]
fn fields_agree_with_the_standard_big_endian_conversion() {
    let chunk_type = ChunkType::from_str("RuSt").unwrap();
    for x in [0u32, 1, 255, 256, 65_535, 65_536, 2882656334, u32::MAX - 1, u32::MAX] {
        let bytes = Chunk::encode_record(&chunk_type, &[], x);
        assert_eq!(&bytes[8..12], &x.to_be_bytes());
        let (_, stored) = Chunk::split_record(&bytes).unwrap();
        assert_eq!(stored, x);
    }
}

#[test]
fn length_field_larger_than_the_payload_is_an_io_error() {
    let message = "This is where your secret message will be!".as_bytes();
    let bytes = record(44, b"RuSt", message, 2882656334);
    assert_eq!(Chunk::try_from(bytes.as_ref()).unwrap_err(), ChunkError::IO);
    let bytes = record(43, b"RuSt", message, 2882656334);
    assert_eq!(Chunk::try_from(bytes.as_ref()).unwrap_err(), ChunkError::IO);
}

#[test]
fn length_field_smaller_than_the_payload_is_a_crc_mismatch() {
    let message = "This is where your secret message will be!".as_bytes();
    let bytes = record(41, b"RuSt", message, 2882656334);
    assert_eq!(Chunk::try_from(bytes.as_ref()).unwrap_err(), ChunkError::CrcMismatch);
}

#[test]
fn length_field_is_big_endian() {
    let data = vec![7u8; 0x0001_0203];
    let chunk = Chunk::new(ChunkType::from_str("RuSt").unwrap(), data);
    assert_eq!(chunk.length(), 0x0001_0203);
    assert_eq!(&chunk.as_bytes()[0..4], &[0, 1, 2, 3]);
}

#[test]
fn chunk_round_trip() {
    for payload in [&b""[..], &b"a"[..], &b"hello world"[..], &[0u8, 255, 128, 10, 13][..]] {
        for code in ["RuSt", "ruSt", "RUST", "IHDR", "tEXt"] {
            let chunk = Chunk::new(ChunkType::from_str(code).unwrap(), payload.to_vec());
            let bytes = chunk.as_bytes();
            let back = Chunk::try_from(bytes.as_ref()).unwrap();
            assert_eq!(back, chunk);
            assert_eq!(back.chunk_type(), chunk.chunk_type());
            assert_eq!(back.data(), payload);
            assert_eq!(back.crc(), chunk.crc());
            assert_eq!(back.as_bytes(), bytes);
        }
    }
}

#[test]
fn chunk_with_invalid_reserved_bit_does_not_round_trip() {
    let chunk = Chunk::new(ChunkType::from_str("Rust").unwrap(), b"x".to_vec());
    let bytes = chunk.as_bytes();
    assert_eq!(
        Chunk::try_from(bytes.as_ref()).unwrap_err(),
        ChunkError::InvalidChunkType(InvalidChunkType)
    );
}

#[test]
fn every_single_bit_flip_is_refused() {
    let chunk = Chunk::new(ChunkType::from_str("RuSt").unwrap(), b"secret".to_vec());
    let bytes = chunk.as_bytes();
    let payload_starts = 8;
    let checksum_starts = bytes.len() - 4;
    for at in 4..bytes.len() {
        for bit in 0..8 {
            let mut changed = bytes.clone();
            changed[at] ^= 1 << bit;
            let error = Chunk::try_from(changed.as_ref()).unwrap_err();
            if at >= payload_starts {
                assert_eq!(error, ChunkError::CrcMismatch);
            } else {
                assert!(matches!(
                    error,
                    ChunkError::CrcMismatch | ChunkError::InvalidChunkType(_)
                ));
            }
            if at >= checksum_starts {
                assert_eq!(error, ChunkError::CrcMismatch);
            }
        }
    }
}

#[test]
fn flipped_type_bit_that_keeps_the_code_valid_is_a_crc_mismatch() {
    let chunk = Chunk::new(ChunkType::from_str("RuSt").unwrap(), b"secret".to_vec());
    let mut bytes = chunk.as_bytes();
    bytes[4] ^= 0x20; // "ruSt"
    assert_eq!(Chunk::try_from(bytes.as_ref()).unwrap_err(), ChunkError::CrcMismatch);
}

#[test]
fn flipped_reserved_bit_is_an_invalid_type() {
    let chunk = Chunk::new(ChunkType::from_str("RuSt").unwrap(), b"secret".to_vec());
    let mut bytes = chunk.as_bytes();
    bytes[6] ^= 0x20; // "Rust"
    assert_eq!(
        Chunk::try_from(bytes.as_ref()).unwrap_err(),
        ChunkError::InvalidChunkType(InvalidChunkType)
    );
}

#[test]
fn short_input_is_an_io_error() {
    let bytes = Chunk::new(ChunkType::from_str("RuSt").unwrap(), b"secret".to_vec()).as_bytes();
    for len in 0..bytes.len() {
        assert_eq!(Chunk::try_from(&bytes[..len]).unwrap_err(), ChunkError::IO);
    }
    assert!(Chunk::try_from(&bytes[..]).is_ok());
}

#[test]
fn invalid_type_is_reported_before_a_missing_payload() {
    // Eight bytes only: the header is there, the payload and checksum are not.
    assert_eq!(
        Chunk::try_from(&[0u8, 0, 0, 5, b'R', b'u', b'1', b't'][..]).unwrap_err(),
        ChunkError::InvalidChunkType(InvalidChunkType)
    );
    assert_eq!(
        Chunk::try_from(&[0u8, 0, 0, 5, b'R', b'u', b'S', b't'][..]).unwrap_err(),
        ChunkError::IO
    );
    // Seven bytes: the type code itself is cut short.
    assert_eq!(
        Chunk::try_from(&[0u8, 0, 0, 5, b'R', b'u', b'1'][..]).unwrap_err(),
        ChunkError::IO
    );
}

#[test]
fn huge_length_field_fails_cleanly() {
    let mut bytes = vec![0xFF, 0xFF, 0xFF, 0xFF];
    bytes.extend_from_slice(b"RuSt");
    bytes.extend_from_slice(&[0u8; 64]);
    assert_eq!(Chunk::try_from(bytes.as_ref()).unwrap_err(), ChunkError::IO);
}

#[test]
fn bytes_behind_the_record_are_not_looked_at() {
    let chunk = Chunk::new(ChunkType::from_str("RuSt").unwrap(), b"secret".to_vec());
    let mut bytes = chunk.as_bytes();
    bytes.extend_from_slice(&[1, 2, 3]);
    assert_eq!(Chunk::try_from(bytes.as_ref()).unwrap(), chunk);
}

#[test]
fn split_record_gives_the_stored_checksum_unjudged() {
    let bytes = record(3, b"RuSt", &[9, 8, 7], 0xDEAD_BEEF);
    let (chunk, stored) = Chunk::split_record(&bytes).unwrap();
    assert_eq!(stored, 0xDEAD_BEEF);
    assert_eq!(chunk.data(), &[9, 8, 7]);
    assert_eq!(chunk.chunk_type().bytes(), *b"RuSt");
    assert_eq!(Chunk::try_from(bytes.as_ref()).unwrap_err(), ChunkError::CrcMismatch);
}

#[test]
fn accept_compares_the_two_checksums() {
    let chunk = Chunk::new(ChunkType::from_str("RuSt").unwrap(), b"x".to_vec());
    assert_eq!(Chunk::accept(chunk.clone(), 5, 5).unwrap(), chunk);
    assert_eq!(Chunk::accept(chunk, 5, 6).unwrap_err(), ChunkError::CrcMismatch);
}

#[test]
fn empty_payload() {
    let chunk = Chunk::new(ChunkType::from_str("RuSt").unwrap(), Vec::new());
    assert_eq!(chunk.length(), 0);
    assert_eq!(chunk.data(), &[] as &[u8]);
    assert_eq!(chunk.as_bytes().len(), 12);
    assert_eq!(chunk.data_as_string().unwrap(), "");
    assert_eq!(Chunk::try_from(chunk.as_bytes().as_ref()).unwrap(), chunk);
}

#[test]
fn payload_that_is_no_utf8_is_no_text() {
    let chunk = Chunk::new(ChunkType::from_str("RuSt").unwrap(), vec![0xFF, 0xFE]);
    assert!(chunk.data_as_string().is_err());
    let cut = Chunk::new(ChunkType::from_str("RuSt").unwrap(), vec![0xE2, 0x82]);
    assert!(cut.data_as_string().is_err());
}

#[test]
fn payload_text_is_decoded_as_utf8() {
    let chunk = Chunk::new(
        ChunkType::from_str("RuSt").unwrap(),
        vec![0x68, 0xC3, 0xA9, 0xE2, 0x82, 0xAC],
    );
    assert_eq!(chunk.data_as_string().unwrap(), "h\u{e9}\u{20ac}");
}

#[test]
fn description_of_a_chunk() {
    let chunk = testing_chunk();
    assert_eq!(
        chunk.to_string(),
        "Chunk {\n  Length: 42\n  Type: RuSt\n  Data: 42 bytes\n  Crc: 2882656334\n}\n"
    );
    let empty = Chunk::new(ChunkType::try_from(*b"IEND").unwrap(), Vec::new());
    assert_eq!(
        empty.to_string(),
        format!(
            "Chunk {{\n  Length: {}\n  Type: {}\n  Data: {} bytes\n  Crc: {}\n}}\n",
            0, "IEND", 0, 0xAE42_6082u32
        )
    );
}

#[test]
fn describe_takes_the_checksum_it_is_given() {
    let chunk_type = ChunkType::from_str("RuSt").unwrap();
    assert_eq!(
        Chunk::describe(&chunk_type, 1234, 0),
        "Chunk {\n  Length: 1234\n  Type: RuSt\n  Data: 1234 bytes\n  Crc: 0\n}\n"
    );
    assert_eq!(
        Chunk::describe(&chunk_type, 7, u32::MAX),
        "Chunk {\n  Length: 7\n  Type: RuSt\n  Data: 7 bytes\n  Crc: 4294967295\n}\n"
    );
}

#[test]
fn equality_goes_by_type_and_payload() {
    let a = Chunk::new(ChunkType::from_str("RuSt").unwrap(), b"x".to_vec());
    let b = Chunk::new(ChunkType::from_str("RuSt").unwrap(), b"x".to_vec());
    let c = Chunk::new(ChunkType::from_str("RuSt").unwrap(), b"y".to_vec());
    let d = Chunk::new(ChunkType::from_str("RuST").unwrap(), b"x".to_vec());
    let e = Chunk::new(ChunkType::from_str("RuSt").unwrap(), b"xx".to_vec());
    assert_eq!(a, b);
    assert_ne!(a, c);
    assert_ne!(a, d);
    assert_ne!(a, e);
    assert_eq!(a.clone(), a);
}

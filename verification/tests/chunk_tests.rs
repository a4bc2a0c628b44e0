use pngme::chunk::Chunk;
use pngme::chunk_type::ChunkType;
use pngme::error::Error;
use std::convert::TryFrom;
use std::str::FromStr;

fn testing_chunk() -> Chunk {
    let data_length: u32 = 42;
    let chunk_type = "RuSt".as_bytes();
    let message_bytes = "This is where your secret message will be!".as_bytes();
    let crc: u32 = 2882656334;

    let chunk_data: Vec<u8> = data_length
        .to_be_bytes()
        .iter()
        .chain(chunk_type.iter())
        .chain(message_bytes.iter())
        .chain(crc.to_be_bytes().iter())
        .copied()
        .collect();

    Chunk::try_from(chunk_data.as_ref()).unwrap()
}

fn encoded(length: u32, chunk_type: &[u8], data: &[u8], crc: u32) -> Vec<u8> {
    length
        .to_be_bytes()
        .iter()
        .chain(chunk_type.iter())
        .chain(data.iter())
        .chain(crc.to_be_bytes().iter())
        .copied()
        .collect()
}

#[test]
fn test_new_chunk() {
    let chunk_type = ChunkType::from_str("RuSt").unwrap();
    let data = "This is where your secret message will be!".as_bytes().to_vec();
    let chunk = Chunk::new(chunk_type, data);
    assert_eq!(chunk.length(), 42);
    assert_eq!(chunk.crc(), 2882656334);
}

#[test]
fn test_chunk_length() {
    let chunk = testing_chunk();
    assert_eq!(chunk.length(), 42);
}

#[test]
fn test_chunk_type() {
    let chunk = testing_chunk();
    assert_eq!(chunk.chunk_type().to_string(), String::from("RuSt"));
}

#[test]
fn test_chunk_string() {
    let chunk = testing_chunk();
    let chunk_string = chunk.data_as_string().unwrap();
    let expected_chunk_string = String::from("This is where your secret message will be!");
    assert_eq!(chunk_string, expected_chunk_string);
}

#[test]
fn test_chunk_crc() {
    let chunk = testing_chunk();
    assert_eq!(chunk.crc(), 2882656334);
}

#[test]
fn test_valid_chunk_from_bytes() {
    let data_length: u32 = 42;
    let chunk_type = "RuSt".as_bytes();
    let message_bytes = "This is where your secret message will be!".as_bytes();
    let crc: u32 = 2882656334;

    let chunk_data: Vec<u8> = data_length
        .to_be_bytes()
        .iter()
        .chain(chunk_type.iter())
        .chain(message_bytes.iter())
        .chain(crc.to_be_bytes().iter())
        .copied()
        .collect();

    let chunk = Chunk::try_from(chunk_data.as_ref()).unwrap();

    let chunk_string = chunk.data_as_string().unwrap();
    let expected_chunk_string = String::from("This is where your secret message will be!");

    assert_eq!(chunk.length(), 42);
    assert_eq!(chunk.chunk_type().to_string(), String::from("RuSt"));
    assert_eq!(chunk_string, expected_chunk_string);
    assert_eq!(chunk.crc(), 2882656334);
}

#[test]
fn test_invalid_chunk_from_bytes() {
    let data_length: u32 = 42;
    let chunk_type = "RuSt".as_bytes();
    let message_bytes = "This is where your secret message will be!".as_bytes();
    let crc: u32 = 2882656333;

    let chunk_data: Vec<u8> = data_length
        .to_be_bytes()
        .iter()
        .chain(chunk_type.iter())
        .chain(message_bytes.iter())
        .chain(crc.to_be_bytes().iter())
        .copied()
        .collect();

    let chunk = Chunk::try_from(chunk_data.as_ref());

    assert!(chunk.is_err());
}

#[test]
pub fn test_chunk_trait_impls() {
    let data_length: u32 = 42;
    let chunk_type = "RuSt".as_bytes();
    let message_bytes = "This is where your secret message will be!".as_bytes();
    let crc: u32 = 2882656334;

    let chunk_data: Vec<u8> = data_length
        .to_be_bytes()
        .iter()
        .chain(chunk_type.iter())
        .chain(message_bytes.iter())
        .chain(crc.to_be_bytes().iter())
        .copied()
        .collect();

    let chunk: Chunk = TryFrom::try_from(chunk_data.as_ref()).unwrap();

    let _chunk_string = format!("{}", chunk.to_string());
}

#[test]
fn corrupted_crc_gives_invalid_chunk() {
    let bytes = encoded(
        42,
        b"RuSt",
        b"This is where your secret message will be!",
        2882656333,
    );
    assert_eq!(Chunk::try_from(bytes.as_slice()).unwrap_err(), Error::InvalidChunk);
}

#[test]
fn every_flipped_crc_bit_gives_invalid_chunk() {
    let good = testing_chunk().as_bytes();
    assert!(Chunk::try_from(good.as_slice()).is_ok());
    let field = good.len() - 4;
    for at in 0..4 {
        for bit in 0..8 {
            let mut bad = good.clone();
            bad[field + at] ^= 1u8 << bit;
            assert_eq!(
                Chunk::try_from(bad.as_slice()).unwrap_err(),
                Error::InvalidChunk
            );
        }
    }
}

#[test]
fn as_bytes_is_length_type_data_crc() {
    let chunk = testing_chunk();
    let expected = encoded(
        42,
        b"RuSt",
        b"This is where your secret message will be!",
        2882656334,
    );
    assert_eq!(chunk.as_bytes(), expected);
    assert_eq!(chunk.as_bytes().len(), 12 + 42);
}

#[test]
fn parse_of_as_bytes_gives_the_chunk_back() {
    for (key, data) in [
        ("RuSt", b"This is where your secret message will be!".to_vec()),
        ("Rust", b"lower-case third letter".to_vec()),
        ("IEND", Vec::new()),
        ("tEXt", vec![0, 255, 128, 7]),
    ] {
        let chunk = Chunk::new(ChunkType::from_str(key).unwrap(), data.clone());
        let bytes = chunk.as_bytes();
        let back = Chunk::try_from(bytes.as_slice()).unwrap();
        assert_eq!(back.chunk_type(), chunk.chunk_type());
        assert_eq!(back.data(), data.as_slice());
        assert_eq!(back.crc(), chunk.crc());
        assert_eq!(back.length(), chunk.length());
        assert_eq!(back.as_bytes(), bytes);
    }
}

#[test]
fn new_chunk_has_the_crc_of_type_and_data() {
    // the check value of CRC-32/ISO-HDLC: the sum of "123456789" is 0xCBF43926
    let chunk = Chunk::new(ChunkType::try_from(*b"1234").unwrap(), b"56789".to_vec());
    assert_eq!(chunk.crc(), 0xCBF4_3926);
    assert_eq!(chunk.length(), 5);
    // an empty payload: the sum of the type alone
    let end = Chunk::new(ChunkType::from_str("IEND").unwrap(), Vec::new());
    assert_eq!(end.crc(), 0xAE42_6082);
    assert_eq!(end.length(), 0);
    assert_eq!(end.as_bytes(), vec![0, 0, 0, 0, 73, 69, 78, 68, 0xAE, 0x42, 0x60, 0x82]);
}

#[test]
fn lower_case_third_letter_is_decoded() {
    let chunk = Chunk::new(ChunkType::from_str("Rust").unwrap(), b"hello".to_vec());
    let back = Chunk::try_from(chunk.as_bytes().as_slice()).unwrap();
    assert_eq!(back.chunk_type().to_string(), "Rust");
    assert_eq!(back.data_as_string().unwrap(), "hello");
}

#[test]
fn short_input_gives_truncation() {
    let good = testing_chunk().as_bytes();
    for len in 0..good.len() {
        assert_eq!(
            Chunk::try_from(&good[..len]).unwrap_err(),
            Error::Truncation,
            "{}",
            len
        );
    }
    assert!(Chunk::try_from(good.as_slice()).is_ok());
}

#[test]
fn bytes_behind_the_chunk_are_ignored() {
    let mut bytes = testing_chunk().as_bytes();
    bytes.extend_from_slice(&[1, 2, 3]);
    let chunk = Chunk::try_from(bytes.as_slice()).unwrap();
    assert_eq!(chunk.length(), 42);
    assert_eq!(chunk.as_bytes().len(), bytes.len() - 3);
}

#[test]
fn unacceptable_type_is_reported_before_the_payload_is_read() {
    // byte 3 is '1': case bit set, yet no lower-case letter
    let bytes = encoded(1000, b"RuS1", b"", 0);
    assert_eq!(Chunk::try_from(&bytes[..8]).unwrap_err(), Error::InvalidChunk);
    assert_eq!(Chunk::try_from(bytes.as_slice()).unwrap_err(), Error::InvalidChunk);
    // with an acceptable type the same input is too short
    let bytes = encoded(1000, b"RuSt", b"", 0);
    assert_eq!(Chunk::try_from(bytes.as_slice()).unwrap_err(), Error::Truncation);
}

#[test]
fn declared_length_larger_than_the_input() {
    let bytes = encoded(u32::MAX, b"RuSt", b"abc", 0);
    assert_eq!(Chunk::try_from(bytes.as_slice()).unwrap_err(), Error::Truncation);
}

#[test]
fn payload_that_is_not_text() {
    let chunk = Chunk::new(ChunkType::from_str("RuSt").unwrap(), vec![0xff, 0xfe]);
    assert_eq!(chunk.data_as_string().unwrap_err(), Error::InvalidStringData);
    let chunk = Chunk::new(ChunkType::from_str("RuSt").unwrap(), "gr\u{fc}n".as_bytes().to_vec());
    assert_eq!(chunk.data_as_string().unwrap(), "gr\u{fc}n");
    let chunk = Chunk::new(ChunkType::from_str("RuSt").unwrap(), Vec::new());
    assert_eq!(chunk.data_as_string().unwrap(), "");
}

#[test]
fn clone_keeps_every_field() {
    let chunk = testing_chunk();
    let copy = chunk.clone();
    assert_eq!(copy.as_bytes(), chunk.as_bytes());
    assert_eq!(copy.to_string(), "RuSt");
}

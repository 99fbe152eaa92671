use pngme::chunk::ChunkError;
use pngme::chunk_type::{is_ascii_alphabetic, is_ascii_lowercase, is_ascii_uppercase, ChunkTypeError};
use pngme::png::PngError;
use pngme::text::text_of_bytes;

#[test]
fn text_of_bytes_maps_each_byte_to_its_character() {
    assert_eq!(text_of_bytes(b""), "");
    assert_eq!(text_of_bytes(b"hello"), "hello");
    assert_eq!(text_of_bytes(&[0xE9]), "\u{e9}");
    assert_eq!(text_of_bytes(&[72, 0xFF, 105]), "H\u{ff}i");
}

#[test]
fn letter_tests_agree_with_std() {
    for b in 0..=255u8 {
        assert_eq!(is_ascii_uppercase(b), b.is_ascii_uppercase());
        assert_eq!(is_ascii_lowercase(b), b.is_ascii_lowercase());
        assert_eq!(is_ascii_alphabetic(&[b]), b.is_ascii_alphabetic());
    }
}

#[test]
fn is_ascii_alphabetic_looks_at_every_byte() {
    assert!(is_ascii_alphabetic(b""));
    assert!(is_ascii_alphabetic(b"abcXYZ"));
    assert!(!is_ascii_alphabetic(b"abc1"));
    assert!(!is_ascii_alphabetic(b"1abc"));
    assert!(!is_ascii_alphabetic(b"ab cd"));
}

#[test]
fn chunk_type_errors_describe_themselves() {
    assert_eq!(ChunkTypeError::ReservedBit.to_string(), "using Reserved Bit");
    assert_eq!(ChunkTypeError::InvalidByte.to_string(), "");
}

#[test]
fn chunk_errors_describe_themselves() {
    assert_eq!(ChunkError::Crc.to_string(), "CRC is wrong value.");
    assert_eq!(
        ChunkError::ChunkType(ChunkTypeError::ReservedBit).to_string(),
        "Chunk type is wrong value."
    );
    assert_eq!(
        ChunkError::ChunkType(ChunkTypeError::InvalidByte).to_string(),
        "Chunk type is wrong value."
    );
    assert_eq!(ChunkError::Framing.to_string(), "failed to fill whole buffer");
    assert_eq!(ChunkError::Encoding.to_string(), "Chunk data is not text.");
}

#[test]
fn png_errors_describe_themselves() {
    assert_eq!(PngError::Signature.to_string(), "Signature is wrong value.");
    assert_eq!(PngError::NotFound.to_string(), "Chunk type is not found.");
    assert_eq!(PngError::Chunk(ChunkError::Crc).to_string(), "CRC is wrong value.");
}

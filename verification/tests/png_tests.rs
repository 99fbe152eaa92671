use pngme::chunk::{Chunk, ChunkError};
use pngme::chunk_type::{ChunkType, ChunkTypeError};
use pngme::png::{Png, PngError};
use std::str::FromStr;

const SIGNATURE: [u8; 8] = [137, 80, 78, 71, 13, 10, 26, 10];

fn chunk(name: &str, payload: &str) -> Chunk {
    Chunk::new(ChunkType::from_str(name).unwrap(), payload.as_bytes().to_vec())
}

fn sample_chunks() -> Vec<Chunk> {
    vec![
        chunk("FrSt", "I am the first chunk"),
        chunk("miDl", "I am another chunk"),
        chunk("LASt", "I am the last chunk"),
    ]
}

fn sample_png() -> Png {
    Png::from_chunks(sample_chunks())
}

fn names(png: &Png) -> Vec<String> {
    png.chunks().iter().map(|c| c.chunk_type().to_string()).collect()
}

#[test]
fn header_is_the_png_signature() {
    assert_eq!(Png::header(), SIGNATURE);
    assert_eq!(&Png::header()[1..4], b"PNG");
}

#[test]
fn from_chunks_keeps_the_order() {
    let png = sample_png();
    assert_eq!(png.chunks().len(), 3);
    assert_eq!(names(&png), ["FrSt", "miDl", "LASt"]);
}

#[test]
fn as_bytes_is_signature_then_chunks() {
    let png = sample_png();
    let mut expected = SIGNATURE.to_vec();
    for c in sample_chunks() {
        expected.extend_from_slice(&c.as_bytes());
    }
    assert_eq!(png.as_bytes(), expected);
}

#[test]
fn empty_container_is_the_signature_alone() {
    let png = Png::try_from(&SIGNATURE[..]).unwrap();
    assert_eq!(png.chunks().len(), 0);
    assert_eq!(png.as_bytes(), SIGNATURE);
}

#[test]
fn container_round_trip() {
    let png = sample_png();
    let bytes = png.as_bytes();
    let back = Png::try_from(bytes.as_slice()).unwrap();
    assert_eq!(back.chunks().len(), png.chunks().len());
    for (a, b) in back.chunks().iter().zip(png.chunks().iter()) {
        assert_eq!(a.length(), b.length());
        assert_eq!(a.chunk_type(), b.chunk_type());
        assert_eq!(a.data(), b.data());
        assert_eq!(a.crc(), b.crc());
    }
    assert_eq!(back.as_bytes(), bytes);
}

#[test]
fn wrong_signature_is_rejected() {
    let mut bytes = sample_png().as_bytes();
    bytes[0] = 13;
    assert_eq!(Png::try_from(bytes.as_slice()).unwrap_err(), PngError::Signature);
    let mut bytes = sample_png().as_bytes();
    bytes[7] = 11;
    assert_eq!(Png::try_from(bytes.as_slice()).unwrap_err(), PngError::Signature);
}

#[test]
fn short_buffer_is_a_signature_error() {
    assert_eq!(Png::try_from(&[][..]).unwrap_err(), PngError::Signature);
    assert_eq!(Png::try_from(&SIGNATURE[..7]).unwrap_err(), PngError::Signature);
}

#[test]
fn a_bad_chunk_fails_the_whole_container() {
    let mut bytes = sample_png().as_bytes();
    let last = bytes.len() - 1;
    bytes[last] ^= 1;
    assert_eq!(
        Png::try_from(bytes.as_slice()).unwrap_err(),
        PngError::Chunk(ChunkError::Crc)
    );
}

#[test]
fn trailing_bytes_are_a_framing_error() {
    let mut bytes = sample_png().as_bytes();
    bytes.extend_from_slice(&[0, 0, 0]);
    assert_eq!(
        Png::try_from(bytes.as_slice()).unwrap_err(),
        PngError::Chunk(ChunkError::Framing)
    );
}

#[test]
fn a_chunk_of_invalid_type_fails_the_container() {
    let mut bytes = SIGNATURE.to_vec();
    bytes.extend_from_slice(&chunk("FrSt", "one").as_bytes());
    bytes.extend_from_slice(&chunk("frst", "two").as_bytes());
    assert_eq!(
        Png::try_from(bytes.as_slice()).unwrap_err(),
        PngError::Chunk(ChunkError::ChunkType(ChunkTypeError::ReservedBit))
    );
}

#[test]
fn append_adds_at_the_end() {
    let mut png = sample_png();
    png.append_chunk(chunk("TeSt", "Message"));
    assert_eq!(names(&png), ["FrSt", "miDl", "LASt", "TeSt"]);
    assert_eq!(png.chunks()[3].data(), b"Message");
}

#[test]
fn append_allows_a_type_twice() {
    let mut png = sample_png();
    png.append_chunk(chunk("FrSt", "again"));
    assert_eq!(names(&png), ["FrSt", "miDl", "LASt", "FrSt"]);
    assert_eq!(png.chunk_by_type("FrSt").unwrap().data(), b"I am the first chunk");
}

#[test]
fn chunk_by_type_finds_the_first_match() {
    let mut png = sample_png();
    png.append_chunk(chunk("miDl", "second of its type"));
    let found = png.chunk_by_type("miDl").unwrap();
    assert_eq!(found.chunk_type().to_string(), "miDl");
    assert_eq!(found.data_as_string().unwrap(), "I am another chunk");
}

#[test]
fn chunk_by_type_finds_nothing_for_an_absent_type() {
    let png = sample_png();
    assert!(png.chunk_by_type("zzAp").is_none());
    assert!(png.chunk_by_type("").is_none());
    assert!(png.chunk_by_type("FrS").is_none());
    assert!(png.chunk_by_type("FrStx").is_none());
    assert!(png.chunk_by_type("frst").is_none());
}

#[test]
fn remove_takes_out_the_first_match_only() {
    let mut png = sample_png();
    png.append_chunk(chunk("FrSt", "second of its type"));
    let removed = png.remove_chunk("FrSt").unwrap();
    assert_eq!(removed.data(), b"I am the first chunk");
    assert_eq!(names(&png), ["miDl", "LASt", "FrSt"]);
    assert_eq!(png.chunk_by_type("FrSt").unwrap().data(), b"second of its type");
}

#[test]
fn remove_of_an_absent_type_is_not_found() {
    let mut png = sample_png();
    let before = png.as_bytes();
    assert_eq!(png.remove_chunk("zzAp").unwrap_err(), PngError::NotFound);
    assert_eq!(names(&png), ["FrSt", "miDl", "LASt"]);
    assert_eq!(png.as_bytes(), before);
}

#[test]
fn remove_then_encode_drops_the_chunk_bytes() {
    let mut png = sample_png();
    png.remove_chunk("miDl").unwrap();
    let mut expected = SIGNATURE.to_vec();
    expected.extend_from_slice(&chunk("FrSt", "I am the first chunk").as_bytes());
    expected.extend_from_slice(&chunk("LASt", "I am the last chunk").as_bytes());
    assert_eq!(png.as_bytes(), expected);
}

#[test]
fn hello_in_a_text_chunk_end_to_end() {
    let mut buffer = SIGNATURE.to_vec();
    buffer.extend_from_slice(&chunk("teXt", "hello").as_bytes());
    let png = Png::try_from(buffer.as_slice()).unwrap();
    let found = png.chunk_by_type("teXt").unwrap();
    assert_eq!(found.data_as_string().unwrap(), "hello");
    assert_eq!(png.as_bytes(), buffer);
}

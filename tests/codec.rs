use hideit::message::{decode_message, encode_message, hides_messages, remove_message};
use hideit::{Chunk, ChunkType, Error, Png};

const SIGNATURE: [u8; 8] = [137, 80, 78, 71, 13, 10, 26, 10];
const IEND_BYTES: [u8; 12] = [0, 0, 0, 0, 73, 69, 78, 68, 0xAE, 0x42, 0x60, 0x82];

fn code(s: &str) -> ChunkType {
    ChunkType::from_text(s).unwrap()
}

fn iend_png() -> Vec<u8> {
    let mut b = SIGNATURE.to_vec();
    b.extend_from_slice(&Chunk::new(code("IEND"), vec![]).as_bytes());
    b
}

fn three_chunk_png() -> Vec<u8> {
    let mut b = SIGNATURE.to_vec();
    b.extend_from_slice(&Chunk::new(code("IHDR"), vec![1, 2, 3, 4]).as_bytes());
    b.extend_from_slice(&Chunk::new(code("ruSt"), b"hidden".to_vec()).as_bytes());
    b.extend_from_slice(&Chunk::new(code("IEND"), vec![]).as_bytes());
    b
}

#[test]
fn type_from_valid_bytes_keeps_them() {
    let t = ChunkType::from_bytes([82, 117, 83, 116]).unwrap();
    assert_eq!(t.bytes(), [82, 117, 83, 116]);
    let t = ChunkType::from_bytes(*b"abCd").unwrap();
    assert_eq!(t.bytes(), *b"abCd");
}

#[test]
fn type_from_bytes_rejects_non_letters_and_lowercase_reserved_bit() {
    assert_eq!(ChunkType::from_bytes([82, 117, 51, 116]), Err(Error::InvalidTypeCode));
    assert_eq!(ChunkType::from_bytes(*b"Ru t"), Err(Error::InvalidTypeCode));
    assert_eq!(ChunkType::from_bytes(*b"Rust"), Err(Error::InvalidTypeCode));
    assert_eq!(ChunkType::from_bytes([0xC1, 117, 83, 116]), Err(Error::InvalidTypeCode));
}

#[test]
fn type_from_text() {
    assert_eq!(code("RuSt").bytes(), *b"RuSt");
    assert_eq!(ChunkType::from_text("Rust"), Err(Error::InvalidTypeCode));
    assert_eq!(ChunkType::from_text("Ru1t"), Err(Error::InvalidTypeCode));
    assert_eq!(ChunkType::from_text("RuStX"), Err(Error::InvalidTypeCode));
    assert_eq!(ChunkType::from_text("RuS"), Err(Error::InvalidTypeCode));
    assert_eq!(ChunkType::from_text(""), Err(Error::InvalidTypeCode));
    assert_eq!(ChunkType::from_text("RuSé"), Err(Error::InvalidTypeCode));
}

#[test]
fn type_properties_follow_letter_case() {
    let t = code("ruSt");
    assert!(!t.is_critical());
    assert!(!t.is_public());
    assert!(t.is_reserved_bit_valid());
    assert!(t.is_safe_to_copy());
    let t = code("RUST");
    assert!(t.is_critical());
    assert!(t.is_public());
    assert!(!t.is_safe_to_copy());
    assert!(t.is_valid());
}

#[test]
fn hiding_policy_accepts_private_ancillary_copyable_types() {
    assert!(hides_messages(&code("ruSt")));
    assert!(!hides_messages(&code("RUST")));
    assert!(!hides_messages(&code("rUSt")));
    assert!(!hides_messages(&code("ruST")));
}

#[test]
fn type_as_string_and_name() {
    assert_eq!(code("RuSt").as_string(), "RuSt");
    assert!(code("RuSt").has_name("RuSt"));
    assert!(!code("RuSt").has_name("RUST"));
    assert!(!code("RuSt").has_name("RuStt"));
    assert!(ChunkType::is_valid_byte(b'q'));
    assert!(!ChunkType::is_valid_byte(b'['));
    assert_eq!(code("RuSt"), ChunkType::from_bytes(*b"RuSt").unwrap());
    assert_ne!(code("RuSt"), code("RUST"));
}

#[test]
fn new_chunk_has_length_and_crc() {
    let c = Chunk::new(code("IEND"), vec![]);
    assert_eq!(c.length(), 0);
    assert_eq!(c.crc(), 0xAE42_6082);
    assert_eq!(c.as_bytes(), IEND_BYTES.to_vec());
    let c = Chunk::new(code("RuSt"), b"This is where your secret message will be!".to_vec());
    assert_eq!(c.length(), 42);
    assert_eq!(c.crc(), 2882656334);
    assert_eq!(c.as_bytes().len(), 54);
}

#[test]
fn chunk_round_trip() {
    let c = Chunk::new(code("RuSt"), b"hello".to_vec());
    let bytes = c.as_bytes();
    let d = Chunk::from_bytes(&bytes).unwrap();
    assert_eq!(d.length(), c.length());
    assert_eq!(*d.chunk_type(), *c.chunk_type());
    assert_eq!(d.data(), c.data());
    assert_eq!(d.crc(), c.crc());
    assert_eq!(d.as_bytes(), bytes);
}

#[test]
fn corrupted_payload_byte_fails_checksum() {
    let bytes = Chunk::new(code("RuSt"), b"hello".to_vec()).as_bytes();
    for i in 8..bytes.len() - 4 {
        let mut bad = bytes.clone();
        bad[i] ^= 0x01;
        assert!(matches!(Chunk::from_bytes(&bad), Err(Error::InvalidChecksum { .. })));
    }
}

#[test]
fn corrupted_length_fails_before_checksum() {
    let mut bytes = Chunk::new(code("RuSt"), b"hello".to_vec()).as_bytes();
    bytes[3] = 6;
    assert_eq!(Chunk::from_bytes(&bytes).err(), Some(Error::InvalidLength { declared: 6, framed: 5 }));
    bytes[0] = 0xFF;
    assert!(matches!(Chunk::from_bytes(&bytes), Err(Error::InvalidLength { .. })));
}

#[test]
fn short_chunk_is_truncated() {
    assert_eq!(Chunk::from_bytes(&[0, 0, 0, 0, 73, 69]).err(), Some(Error::TruncatedInput));
    assert_eq!(Chunk::from_bytes(&[]).err(), Some(Error::TruncatedInput));
}

#[test]
fn chunk_with_bad_type_is_refused() {
    let mut bytes = IEND_BYTES.to_vec();
    bytes[6] = b'n';
    assert_eq!(Chunk::from_bytes(&bytes).err(), Some(Error::InvalidTypeCode));
}

#[test]
fn chunk_checked_against_given_crc() {
    let c = Chunk::from_bytes_with_crc(&IEND_BYTES, 0xAE42_6082).unwrap();
    assert_eq!(c.crc(), 0xAE42_6082);
    assert_eq!(
        Chunk::from_bytes_with_crc(&IEND_BYTES, 7).err(),
        Some(Error::InvalidChecksum { stored: 0xAE42_6082, computed: 7 })
    );
}

#[test]
fn payload_as_text() {
    let c = Chunk::new(code("RuSt"), "héllo".as_bytes().to_vec());
    assert_eq!(c.data_as_string(), Ok("héllo".to_string()));
    let c = Chunk::new(code("RuSt"), vec![0xFF, 0xFE]);
    assert_eq!(c.data_as_string(), Err(Error::NonTextPayload));
}

#[test]
fn iend_only_stream() {
    let bytes = iend_png();
    let p = Png::from_bytes(&bytes).unwrap();
    assert_eq!(p.chunks().len(), 1);
    assert_eq!(p.chunks()[0].chunk_type().as_string(), "IEND");
    assert!(p.chunks()[0].data().is_empty());
    assert_eq!(p.as_bytes(), bytes);
    assert_eq!(Png::STANDARD_HEADER, SIGNATURE);
}

#[test]
fn stream_round_trip() {
    let bytes = three_chunk_png();
    let p = Png::from_bytes(&bytes).unwrap();
    assert_eq!(p.chunks().len(), 3);
    assert_eq!(p.as_bytes(), bytes);
    let empty = Png::from_bytes(&SIGNATURE).unwrap();
    assert!(empty.chunks().is_empty());
    assert_eq!(empty.as_bytes(), SIGNATURE.to_vec());
}

#[test]
fn bad_signature_is_refused() {
    let mut bytes = iend_png();
    bytes[1] = 81;
    assert!(matches!(Png::from_bytes(&bytes), Err(Error::InvalidHeader)));
    assert!(matches!(Png::from_bytes(&SIGNATURE[..5]), Err(Error::InvalidHeader)));
}

#[test]
fn stream_with_leftover_bytes_is_truncated() {
    let mut bytes = iend_png();
    bytes.extend_from_slice(&[0, 0, 0]);
    assert!(matches!(Png::from_bytes(&bytes), Err(Error::TruncatedInput)));
    let mut bytes = iend_png();
    bytes.extend_from_slice(&[0, 0, 0, 9, 73, 69]);
    assert!(matches!(Png::from_bytes(&bytes), Err(Error::TruncatedInput)));
    let mut bytes = iend_png();
    bytes.extend_from_slice(&[0xFF, 0xFF, 0xFF, 0xFF, 73, 69, 78, 68]);
    assert!(matches!(Png::from_bytes(&bytes), Err(Error::TruncatedInput)));
}

#[test]
fn stream_with_bad_chunk_fails_whole() {
    let mut bytes = three_chunk_png();
    bytes[8 + 16 + 8] ^= 0x20;
    assert!(matches!(Png::from_bytes(&bytes), Err(Error::InvalidChecksum { .. })));
}

#[test]
fn append_then_find() {
    let mut p = Png::from_bytes(&iend_png()).unwrap();
    let c = Chunk::new(code("ruSt"), b"secret".to_vec());
    let name = c.chunk_type().as_string();
    p.append_chunk(c);
    let found = p.chunk_by_type(&name).unwrap();
    assert_eq!(found.data(), b"secret");
    assert_eq!(p.chunks().len(), 2);
    assert!(p.chunk_by_type("abCd").is_none());
}

#[test]
fn find_returns_first_match() {
    let mut p = Png::from_bytes(&three_chunk_png()).unwrap();
    p.append_chunk(Chunk::new(code("ruSt"), b"second".to_vec()));
    assert_eq!(p.chunk_by_type("ruSt").unwrap().data(), b"hidden");
}

#[test]
fn remove_absent_type_leaves_stream() {
    let bytes = three_chunk_png();
    let mut p = Png::from_bytes(&bytes).unwrap();
    let before = p.as_bytes();
    assert!(matches!(p.remove_chunk("abCd"), Err(Error::RecordNotFound)));
    assert_eq!(p.as_bytes(), before);
    assert_eq!(p.as_bytes(), bytes);
}

#[test]
fn remove_takes_first_match_and_keeps_order() {
    let mut p = Png::from_bytes(&three_chunk_png()).unwrap();
    p.append_chunk(Chunk::new(code("ruSt"), b"second".to_vec()));
    let removed = p.remove_chunk("ruSt").unwrap();
    assert_eq!(removed.data(), b"hidden");
    let names: Vec<String> = p.chunks().iter().map(|c| c.chunk_type().as_string()).collect();
    assert_eq!(names, vec!["IHDR", "IEND", "ruSt"]);
}

#[test]
fn encode_decode_remove_message() {
    let original = iend_png();
    let encoded = encode_message(&original, "ruSt", "meet at noon").unwrap();
    assert_eq!(decode_message(&encoded, "ruSt"), Ok(Some("meet at noon".to_string())));
    assert_eq!(decode_message(&encoded, "abCd"), Ok(None));
    let (removed, rest) = remove_message(&encoded, "ruSt").unwrap();
    assert_eq!(removed.unwrap().data(), b"meet at noon");
    assert_eq!(rest, original);
    let (removed, rest) = remove_message(&original, "ruSt").unwrap();
    assert!(removed.is_none());
    assert_eq!(rest, original);
}

#[test]
fn encode_refuses_bad_types_and_streams() {
    let original = iend_png();
    assert_eq!(encode_message(&original, "RUST", "x"), Err(Error::InvalidTypeCode));
    assert_eq!(encode_message(&original, "ru1t", "x"), Err(Error::InvalidTypeCode));
    assert_eq!(encode_message(&original[1..], "ruSt", "x"), Err(Error::InvalidHeader));
    assert_eq!(decode_message(&original[..10], "ruSt"), Err(Error::TruncatedInput));
}

use png_chunks::chunk_type::ChunkType;
use png_chunks::PngError;

#[test]
fn from_bytes_stores_verbatim() {
    let ct = ChunkType::from_bytes([82, 117, 83, 116]);
    assert_eq!(ct.bytes(), [82, 117, 83, 116]);
}

#[test]
fn from_bytes_accepts_any_bytes() {
    let ct = ChunkType::from_bytes([0, 255, 1, 2]);
    assert_eq!(ct.bytes(), [0, 255, 1, 2]);
}

#[test]
fn from_str_accepts_four_letters() {
    let ct = ChunkType::from_str("RuSt").unwrap();
    assert_eq!(ct.bytes(), *b"RuSt");
}

#[test]
fn from_str_rejects_wrong_length() {
    assert_eq!(ChunkType::from_str("RuS").unwrap_err(), PngError::InvalidFormat);
    assert_eq!(ChunkType::from_str("RuSty").unwrap_err(), PngError::InvalidFormat);
    assert_eq!(ChunkType::from_str("").unwrap_err(), PngError::InvalidFormat);
}

#[test]
fn from_str_rejects_non_letters() {
    assert_eq!(ChunkType::from_str("Ru1t").unwrap_err(), PngError::InvalidFormat);
    assert_eq!(ChunkType::from_str("Ru t").unwrap_err(), PngError::InvalidFormat);
    assert_eq!(ChunkType::from_str("Ru;t").unwrap_err(), PngError::InvalidFormat);
}

#[test]
fn critical_bit_is_bit_five_of_first_byte() {
    assert!(ChunkType::from_str("RuSt").unwrap().is_critical());
    assert!(!ChunkType::from_str("ruSt").unwrap().is_critical());
}

#[test]
fn public_bit_is_bit_five_of_second_byte() {
    assert!(ChunkType::from_str("RUSt").unwrap().is_public());
    assert!(!ChunkType::from_str("RuSt").unwrap().is_public());
}

#[test]
fn reserved_bit_is_bit_five_of_third_byte() {
    assert!(ChunkType::from_str("RuSt").unwrap().is_reserved_bit_valid());
    assert!(!ChunkType::from_str("Rust").unwrap().is_reserved_bit_valid());
}

#[test]
fn safe_to_copy_bit_is_bit_five_of_fourth_byte() {
    assert!(ChunkType::from_str("RuSt").unwrap().is_safe_to_copy());
    assert!(!ChunkType::from_str("RuST").unwrap().is_safe_to_copy());
}

#[test]
fn validity_requires_letters_and_reserved_bit() {
    assert!(ChunkType::from_str("RuSt").unwrap().is_valid());
    assert!(!ChunkType::from_str("Rust").unwrap().is_valid());
    assert!(!ChunkType::from_bytes([82, 117, 83, 49]).is_valid());
    assert!(!ChunkType::from_bytes([0, 0, 0, 0]).is_valid());
}

#[test]
fn equality_is_byte_for_byte() {
    let a = ChunkType::from_str("RuSt").unwrap();
    let b = ChunkType::from_bytes(*b"RuSt");
    let c = ChunkType::from_str("ruSt").unwrap();
    assert_eq!(a, b);
    assert_ne!(a, c);
}

#[test]
fn to_text_renders_letters() {
    assert_eq!(ChunkType::from_str("RuSt").unwrap().to_text(), "RuSt");
}

#[test]
fn to_text_renders_placeholder_for_invalid_utf8() {
    assert_eq!(ChunkType::from_bytes([0xff, 0xfe, 0x80, 0x81]).to_text(), "invalid");
}

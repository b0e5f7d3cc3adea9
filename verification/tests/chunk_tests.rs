use png_chunks::chunk::Chunk;
use png_chunks::chunk_type::ChunkType;
use png_chunks::PngError;

fn chunk(code: &str, data: &[u8]) -> Chunk {
    Chunk::new(ChunkType::from_str(code).unwrap(), data.to_vec())
}

#[test]
fn crc_matches_standard_check_value() {
    // CRC-32/ISO-HDLC over the ASCII bytes of "123456789" is the standard
    // check value. The checksum covers type bytes ++ payload, so split the
    // canonical string over the two.
    // "1234" is not a letters-only code, so build the type from raw bytes.
    let c = Chunk::new(ChunkType::from_bytes(*b"1234"), b"56789".to_vec());
    assert_eq!(c.crc(), 0xCBF43926);
}

#[test]
fn length_counts_only_payload() {
    assert_eq!(chunk("RuSt", b"hello").length(), 5);
    assert_eq!(chunk("RuSt", b"").length(), 0);
}

#[test]
fn accessors_return_parts() {
    let c = chunk("RuSt", b"abc");
    assert_eq!(c.chunk_type().bytes(), *b"RuSt");
    assert_eq!(c.data(), b"abc");
}

#[test]
fn encode_layout_is_length_type_data_crc() {
    let c = chunk("RuSt", b"ab");
    let e = c.as_bytes();
    assert_eq!(e.len(), 14);
    assert_eq!(&e[0..4], &[0, 0, 0, 2]);
    assert_eq!(&e[4..8], b"RuSt");
    assert_eq!(&e[8..10], b"ab");
    let crc = u32::from_be_bytes([e[10], e[11], e[12], e[13]]);
    assert_eq!(crc, c.crc());
}

#[test]
fn encode_decode_round_trips() {
    let c = chunk("RuSt", b"an opaque payload of arbitrary bytes");
    let e = c.as_bytes();
    let (d, used) = Chunk::decode(&e).unwrap();
    assert_eq!(used, e.len());
    assert_eq!(d.chunk_type().bytes(), *b"RuSt");
    assert_eq!(d.data(), c.data());
    assert_eq!(d.crc(), c.crc());
}

#[test]
fn decode_consumes_declared_size_and_ignores_trailing_bytes() {
    let mut e = chunk("RuSt", b"xy").as_bytes();
    let total = e.len();
    e.extend_from_slice(b"trailing");
    let (d, used) = Chunk::decode(&e).unwrap();
    assert_eq!(used, total);
    assert_eq!(d.data(), b"xy");
}

#[test]
fn decode_rejects_flipped_checksum_byte() {
    let mut e = chunk("RuSt", b"payload").as_bytes();
    let last = e.len() - 1;
    e[last] ^= 0x01;
    assert_eq!(Chunk::decode(&e).unwrap_err(), PngError::ChecksumMismatch);
}

#[test]
fn decode_rejects_declared_length_past_end() {
    // Declared payload length 5, but only 2 payload bytes before the
    // 4 checksum bytes: the buffer is too short and must never be read
    // out of bounds.
    let buf: Vec<u8> = vec![0, 0, 0, 5, 82, 117, 83, 116, 1, 2, 3, 4, 5, 6];
    assert_eq!(Chunk::decode(&buf).unwrap_err(), PngError::TruncatedInput);
}

#[test]
fn decode_rejects_buffer_shorter_than_fixed_fields() {
    let buf: Vec<u8> = vec![0, 0, 0, 0, 82, 117, 83];
    assert_eq!(Chunk::decode(&buf).unwrap_err(), PngError::TruncatedInput);
}

#[test]
fn data_as_string_decodes_utf8() {
    let c = chunk("RuSt", "sécret".as_bytes());
    assert_eq!(c.data_as_string().unwrap(), "sécret");
}

#[test]
fn data_as_string_rejects_invalid_utf8() {
    let c = Chunk::new(ChunkType::from_str("RuSt").unwrap(), vec![0xff, 0xfe]);
    assert_eq!(c.data_as_string().unwrap_err(), PngError::InvalidEncoding);
}

#[test]
fn empty_payload_is_valid() {
    let c = chunk("RuSt", b"");
    let e = c.as_bytes();
    assert_eq!(e.len(), 12);
    let (d, used) = Chunk::decode(&e).unwrap();
    assert_eq!(used, 12);
    assert_eq!(d.data(), b"");
}

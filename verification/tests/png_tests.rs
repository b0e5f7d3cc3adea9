use png_chunks::chunk::Chunk;
use png_chunks::chunk_type::ChunkType;
use png_chunks::png::{Png, HEADER_TYPE, STANDARD_HEADER, TERMINATOR_TYPE};
use png_chunks::PngError;

fn chunk(code: &str, data: &[u8]) -> Chunk {
    Chunk::new(ChunkType::from_str(code).unwrap(), data.to_vec())
}

fn sample_png() -> Png {
    Png::from_chunks(vec![
        chunk("IHDR", b"fake header data"),
        chunk("ruSt", b"hidden"),
        chunk("IEND", b""),
    ])
}

#[test]
fn named_constants() {
    assert_eq!(STANDARD_HEADER, [137, 80, 78, 71, 13, 10, 26, 10]);
    assert_eq!(&TERMINATOR_TYPE, b"IEND");
    assert_eq!(&HEADER_TYPE, b"IHDR");
}

#[test]
fn header_returns_signature() {
    assert_eq!(sample_png().header(), STANDARD_HEADER);
}

#[test]
fn serialize_starts_with_signature_then_chunks() {
    let png = sample_png();
    let bytes = png.as_bytes();
    assert_eq!(&bytes[0..8], &STANDARD_HEADER);
    assert_eq!(&bytes[8..12], &[0, 0, 0, 16]);
    assert_eq!(&bytes[12..16], b"IHDR");
}

#[test]
fn round_trip_preserves_chunk_sequence() {
    let png = sample_png();
    let bytes = png.as_bytes();
    let parsed = Png::parse(&bytes).unwrap();
    let before = png.chunks();
    let decoded = parsed.chunks();
    assert_eq!(before.len(), decoded.len());
    for (a, b) in before.iter().zip(decoded.iter()) {
        assert_eq!(a.chunk_type().bytes(), b.chunk_type().bytes());
        assert_eq!(a.data(), b.data());
    }
}

#[test]
fn parse_rejects_bad_signature() {
    let png = sample_png();
    let mut bytes = png.as_bytes();
    bytes[0] = 13;
    assert_eq!(Png::parse(&bytes).unwrap_err(), PngError::BadSignature);
    assert_eq!(Png::parse(b"png").unwrap_err(), PngError::BadSignature);
}

#[test]
fn parse_rejects_missing_terminator() {
    let png = Png::from_chunks(vec![chunk("IHDR", b"x"), chunk("ruSt", b"y")]);
    let bytes = png.as_bytes();
    assert_eq!(Png::parse(&bytes).unwrap_err(), PngError::MissingTerminator);
}

#[test]
fn parse_rejects_signature_alone() {
    assert_eq!(
        Png::parse(&STANDARD_HEADER).unwrap_err(),
        PngError::MissingTerminator
    );
}

#[test]
fn parse_propagates_checksum_mismatch() {
    let png = sample_png();
    let mut bytes = png.as_bytes();
    // Flip a byte of the first chunk's checksum: 8 signature bytes, then
    // 4 length + 4 type + 16 data put the checksum at offset 32.
    bytes[32] ^= 0xff;
    assert_eq!(Png::parse(&bytes).unwrap_err(), PngError::ChecksumMismatch);
}

#[test]
fn parse_propagates_truncated_input() {
    let png = sample_png();
    let bytes = png.as_bytes();
    let cut = &bytes[0..bytes.len() - 6];
    assert_eq!(Png::parse(cut).unwrap_err(), PngError::TruncatedInput);
}

#[test]
fn parse_stops_at_terminator() {
    let png = sample_png();
    let mut bytes = png.as_bytes();
    bytes.extend_from_slice(b"garbage after the end");
    let parsed = Png::parse(&bytes).unwrap();
    assert_eq!(parsed.chunks().len(), 3);
}

#[test]
fn append_pushes_to_end() {
    let mut png = Png::from_chunks(vec![]);
    assert_eq!(png.chunks().len(), 0);
    png.append_chunk(chunk("ruSt", b"one"));
    png.append_chunk(chunk("IEND", b""));
    assert_eq!(png.chunks().len(), 2);
    assert_eq!(png.chunks()[0].chunk_type().bytes(), *b"ruSt");
    assert_eq!(png.chunks()[1].chunk_type().bytes(), *b"IEND");
}

#[test]
fn remove_takes_first_match_only_and_find_misses_absent() {
    let mut png = Png::from_chunks(vec![
        chunk("atTa", b"first"),
        chunk("beTa", b"middle"),
        chunk("atTa", b"second"),
    ]);
    let removed = png.remove_chunk("atTa").unwrap();
    assert_eq!(removed.data(), b"first");
    assert_eq!(png.chunks().len(), 2);
    assert_eq!(png.chunks()[0].chunk_type().bytes(), *b"beTa");
    assert_eq!(png.chunks()[1].chunk_type().bytes(), *b"atTa");
    assert_eq!(png.chunks()[1].data(), b"second");
    assert!(png.chunk_by_type("ceTa").is_none());
}

#[test]
fn remove_missing_type_reports_not_found() {
    let mut png = sample_png();
    assert_eq!(png.remove_chunk("none").unwrap_err(), PngError::NotFound);
    assert_eq!(png.chunks().len(), 3);
}

#[test]
fn find_returns_first_match() {
    let png = Png::from_chunks(vec![
        chunk("atTa", b"first"),
        chunk("atTa", b"second"),
    ]);
    let found = png.chunk_by_type("atTa").unwrap();
    assert_eq!(found.data(), b"first");
}

#[test]
fn empty_container_serializes_to_signature_alone() {
    let png = Png::from_chunks(vec![]);
    assert_eq!(png.as_bytes(), STANDARD_HEADER.to_vec());
    assert_eq!(png.type_listing(), "");
}

#[test]
fn type_listing_one_line_per_chunk() {
    let png = sample_png();
    assert_eq!(png.type_listing(), "IHDR\r\nruSt\r\nIEND\r\n");
}

#[test]
fn type_listing_renders_placeholder_for_invalid_utf8_type() {
    let png = Png::from_chunks(vec![Chunk::new(
        ChunkType::from_bytes([0xff, 0xfe, 0x80, 0x81]),
        vec![],
    )]);
    assert_eq!(png.type_listing(), "invalid\r\n");
}

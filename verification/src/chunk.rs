//! One chunk of the container: a big-endian length prefix, a 4-byte type
//! code, `length` payload bytes, and a big-endian CRC-32 checksum computed
//! over the type code and the payload (the length field is excluded).

use crate::be_bytes::{
    lemma_u32_be_bytes_roundtrip, spec_u32_from_be_bytes, spec_u32_to_be_bytes, u32_from_be_bytes,
    u32_to_be_bytes,
};
use crate::chunk_type::ChunkType;
use crate::PngError;
use vstd::prelude::*;
use vstd::utf8::{decode_utf8, valid_utf8};

verus! {

broadcast use crate::chunk_type::lemma_chunk_type_len;

/// The checksum that the crc crate's CRC-32/ISO-HDLC algorithm assigns to a
/// byte sequence. The result depends on the input bytes alone.
pub uninterp spec fn crc32_of(bytes: Seq<u8>) -> u32;

/// Relies on the crc crate: `Crc::<u32>::new(&CRC_32_ISO_HDLC).checksum`
/// computes the CRC-32/ISO-HDLC checksum of the input bytes, a pure
/// function of those bytes.
#[verifier::external_body]
fn crc32_checksum(bytes: &[u8]) -> (r: u32)
    ensures
        r == crc32_of(bytes@),
{
    crc::Crc::<u32>::new(&crc::CRC_32_ISO_HDLC).checksum(bytes)
}

/// Relies on std's `String::from_utf8`: it succeeds exactly on byte
/// sequences that are valid UTF-8 and yields their decoded characters.
#[verifier::external_body]
pub(crate) fn string_from_utf8(bytes: &Vec<u8>) -> (r: Option<String>)
    ensures
        r is Some <==> valid_utf8(bytes@),
        match r {
            Some(s) => s@ == decode_utf8(bytes@),
            None => true,
        },
{
    String::from_utf8(bytes.clone()).ok()
}

/// The mathematical content of a chunk: its type code bytes and its payload.
#[verifier::ext_equal]
pub ghost struct ChunkView {
    pub t: Seq<u8>,
    pub d: Seq<u8>,
}

/// A well-formed chunk holds a 4-byte type code and a payload whose length
/// fits the 4-byte length field.
pub open spec fn chunk_view_wf(cv: ChunkView) -> bool {
    cv.t.len() == 4 && cv.d.len() <= u32::MAX
}

/// The encoded form of a chunk: big-endian payload length, type code bytes,
/// payload bytes, then the big-endian checksum over type code and payload.
pub open spec fn spec_chunk_encoding(cv: ChunkView) -> Seq<u8> {
    spec_u32_to_be_bytes(cv.d.len() as u32) + cv.t + cv.d + spec_u32_to_be_bytes(
        crc32_of(cv.t + cv.d),
    )
}

/// What decoding the front of `b` yields: the chunk and the number of bytes
/// consumed, or the error. Decoding fails with `TruncatedInput` when `b`
/// cannot hold the fixed fields or the declared payload, and with
/// `ChecksumMismatch` when the stored checksum is not the one recomputed
/// over type code and payload.
pub open spec fn spec_decode_chunk(b: Seq<u8>) -> Result<(ChunkView, int), PngError> {
    if b.len() < 12 {
        Err(PngError::TruncatedInput)
    } else {
        let n = spec_u32_from_be_bytes(b.subrange(0, 4)) as int;
        if n + 12 > b.len() {
            Err(PngError::TruncatedInput)
        } else {
            let cv = ChunkView { t: b.subrange(4, 8), d: b.subrange(8, 8 + n) };
            if spec_u32_from_be_bytes(b.subrange(8 + n, 12 + n)) != crc32_of(cv.t + cv.d) {
                Err(PngError::ChecksumMismatch)
            } else {
                Ok((cv, 12 + n))
            }
        }
    }
}

/// A chunk owns its type code and its payload bytes; the checksum is derived
/// on demand, never stored.
#[derive(Debug)]
pub struct Chunk {
    chunk_type: ChunkType,
    data: Vec<u8>,
}

impl View for Chunk {
    type V = ChunkView;

    closed spec fn view(&self) -> ChunkView {
        ChunkView { t: self.chunk_type@, d: self.data@ }
    }
}

impl Chunk {
    /// Pair a type code with payload bytes; no checksum is computed until
    /// requested. The payload must fit the 4-byte length field.
    pub fn new(chunk_type: ChunkType, data: Vec<u8>) -> (r: Chunk)
        requires
            data@.len() <= u32::MAX,
        ensures
            r@ == (ChunkView { t: chunk_type@, d: data@ }),
            chunk_view_wf(r@),
    {
        Chunk { chunk_type, data }
    }

    /// The number of bytes in the payload, as the length field stores it.
    pub fn length(&self) -> (r: u32)
        requires
            self@.d.len() <= u32::MAX,
        ensures
            r == self@.d.len(),
    {
        self.data.len() as u32
    }

    /// The chunk's type code.
    pub fn chunk_type(&self) -> (r: &ChunkType)
        ensures
            r@ == self@.t,
    {
        &self.chunk_type
    }

    /// The payload bytes.
    pub fn data(&self) -> (r: &[u8])
        ensures
            r@ == self@.d,
    {
        self.data.as_slice()
    }

    /// The CRC-32/ISO-HDLC checksum over the type code bytes followed by the
    /// payload bytes.
    pub fn crc(&self) -> (r: u32)
        ensures
            r == crc32_of(self@.t + self@.d),
    {
        let tb = self.chunk_type.bytes();
        let mut buf: Vec<u8> = Vec::new();
        buf.push(tb[0]);
        buf.push(tb[1]);
        buf.push(tb[2]);
        buf.push(tb[3]);
        proof {
            assert(buf@ =~= self@.t + self@.d.subrange(0, 0));
        }
        let mut i: usize = 0;
        while i < self.data.len()
            invariant
                0 <= i <= self.data@.len(),
                buf@ == self@.t + self@.d.subrange(0, i as int),
            decreases self.data@.len() - i,
        {
            buf.push(self.data[i]);
            proof {
                assert(buf@ =~= self@.t + self@.d.subrange(0, i + 1));
            }
            i += 1;
        }
        proof {
            assert(buf@ =~= self@.t + self@.d);
        }
        crc32_checksum(buf.as_slice())
    }

    /// The payload interpreted as UTF-8 text; fails with `InvalidEncoding`
    /// when the payload is not valid UTF-8.
    pub fn data_as_string(&self) -> (r: Result<String, PngError>)
        ensures
            match r {
                Ok(s) => valid_utf8(self@.d) && s@ == decode_utf8(self@.d),
                Err(e) => e == PngError::InvalidEncoding && !valid_utf8(self@.d),
            },
    {
        match string_from_utf8(&self.data) {
            Some(s) => Ok(s),
            None => Err(PngError::InvalidEncoding),
        }
    }

    /// The chunk's encoded form: length, type code, payload, checksum.
    pub fn as_bytes(&self) -> (r: Vec<u8>)
        requires
            self@.d.len() <= u32::MAX,
        ensures
            r@ == spec_chunk_encoding(self@),
            r@.len() == 12 + self@.d.len(),
    {
        let mut out: Vec<u8> = Vec::new();
        let len_bytes = u32_to_be_bytes(self.data.len() as u32);
        out.push(len_bytes[0]);
        out.push(len_bytes[1]);
        out.push(len_bytes[2]);
        out.push(len_bytes[3]);
        let tb = self.chunk_type.bytes();
        out.push(tb[0]);
        out.push(tb[1]);
        out.push(tb[2]);
        out.push(tb[3]);
        proof {
            assert(out@ =~= spec_u32_to_be_bytes(self@.d.len() as u32) + self@.t
                + self@.d.subrange(0, 0));
        }
        let mut i: usize = 0;
        while i < self.data.len()
            invariant
                0 <= i <= self.data@.len(),
                self@.d.len() <= u32::MAX,
                out@ == spec_u32_to_be_bytes(self@.d.len() as u32) + self@.t + self@.d.subrange(
                    0,
                    i as int,
                ),
            decreases self.data@.len() - i,
        {
            out.push(self.data[i]);
            proof {
                assert(out@ =~= spec_u32_to_be_bytes(self@.d.len() as u32) + self@.t
                    + self@.d.subrange(0, i + 1));
            }
            i += 1;
        }
        proof {
            assert(out@ =~= spec_u32_to_be_bytes(self@.d.len() as u32) + self@.t + self@.d);
        }
        let crc_bytes = u32_to_be_bytes(self.crc());
        out.push(crc_bytes[0]);
        out.push(crc_bytes[1]);
        out.push(crc_bytes[2]);
        out.push(crc_bytes[3]);
        proof {
            assert(out@ =~= spec_chunk_encoding(self@));
        }
        out
    }

    /// Decode one chunk from the front of `buf`: a big-endian 4-byte length,
    /// a 4-byte type code, `length` payload bytes, and a big-endian 4-byte
    /// checksum, in that order. On success returns the chunk and the number
    /// of bytes consumed (`length + 12`). Never reads past the declared
    /// fields.
    pub fn decode(buf: &[u8]) -> (r: Result<(Chunk, usize), PngError>)
        ensures
            match r {
                Ok((c, used)) => chunk_view_wf(c@) && 12 <= used <= buf@.len()
                    && spec_decode_chunk(buf@) == Ok::<(ChunkView, int), PngError>(
                    (c@, used as int),
                ),
                Err(e) => spec_decode_chunk(buf@) == Err::<(ChunkView, int), PngError>(e),
            },
    {
        if buf.len() < 12 {
            return Err(PngError::TruncatedInput);
        }
        let n32 = u32_from_be_bytes(&buf[0..4]);
        let n = n32 as usize;
        if n > buf.len() - 12 {
            return Err(PngError::TruncatedInput);
        }
        let chunk_type = ChunkType::from_bytes([buf[4], buf[5], buf[6], buf[7]]);
        proof {
            assert(chunk_type@ =~= buf@.subrange(4, 8));
        }
        let mut data: Vec<u8> = Vec::new();
        let mut i: usize = 0;
        while i < n
            invariant
                0 <= i <= n,
                n + 12 <= buf@.len(),
                buf@.len() <= usize::MAX,
                data@ == buf@.subrange(8, 8 + i as int),
            decreases n - i,
        {
            data.push(buf[8 + i]);
            proof {
                assert(data@ =~= buf@.subrange(8, 8 + (i + 1)));
            }
            i += 1;
        }
        let stored = u32_from_be_bytes(&buf[8 + n..12 + n]);
        let chunk = Chunk { chunk_type, data };
        let computed = chunk.crc();
        proof {
            assert(buf@.subrange(8 + n as int, 12 + n as int) =~= buf@.subrange(
                0,
                buf@.len() as int,
            ).subrange(8 + n as int, 12 + n as int));
        }
        if stored != computed {
            return Err(PngError::ChecksumMismatch);
        }
        Ok((chunk, n + 12))
    }
}

/// Decoding inverts encoding: a well-formed chunk's encoded form, followed
/// by any further bytes, decodes to the same chunk, consuming exactly the
/// encoded form.
pub proof fn lemma_chunk_encode_decode(cv: ChunkView, rest: Seq<u8>)
    requires
        chunk_view_wf(cv),
    ensures
        spec_chunk_encoding(cv).len() == 12 + cv.d.len(),
        spec_decode_chunk(spec_chunk_encoding(cv) + rest) == Ok::<(ChunkView, int), PngError>(
            (cv, 12 + cv.d.len() as int),
        ),
{
    lemma_u32_be_bytes_roundtrip();
    let e = spec_chunk_encoding(cv) + rest;
    let n = cv.d.len() as int;
    assert(e.subrange(0, 4) =~= spec_u32_to_be_bytes(cv.d.len() as u32));
    assert(spec_u32_from_be_bytes(e.subrange(0, 4)) == cv.d.len() as u32);
    assert(e.subrange(4, 8) =~= cv.t);
    assert(e.subrange(8, 8 + n) =~= cv.d);
    assert(e.subrange(8 + n, 12 + n) =~= spec_u32_to_be_bytes(crc32_of(cv.t + cv.d)));
    let decoded = spec_decode_chunk(e)->Ok_0;
    assert(decoded.0 =~= cv);
}

} // verus!

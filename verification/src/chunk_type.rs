//! A 4-byte chunk type code. Type codes are restricted to uppercase and
//! lowercase ASCII letters, but encoders and decoders must treat the codes as
//! fixed binary values, not character strings. Bit 5 of each byte (0 when the
//! letter is uppercase, 1 when lowercase) encodes a property of the chunk:
//! critical/ancillary, public/private, reserved, and safe-to-copy.

use crate::PngError;
use vstd::prelude::*;
use vstd::string::StringSliceAdditionalSpecFns;
use vstd::utf8::{decode_utf8, valid_utf8};

verus! {

/// Whether `b` is an ASCII letter, A-Z or a-z.
pub open spec fn spec_is_ascii_letter(b: u8) -> bool {
    (65 <= b && b <= 90) || (97 <= b && b <= 122)
}

/// Chunk type codes are assigned so that a decoder can determine some
/// properties of a chunk even when it does not recognize the type code.
/// Constructed from raw bytes the code is stored verbatim; validity is a
/// queryable property, not a construction precondition.
#[derive(Clone, Copy, Debug)]
pub struct ChunkType {
    raw: [u8; 4],
}

impl PartialEq for ChunkType {
    /// Equality is exact byte-for-byte; case is semantically significant.
    fn eq(&self, other: &ChunkType) -> (r: bool) {
        let r = self.raw[0] == other.raw[0] && self.raw[1] == other.raw[1] && self.raw[2]
            == other.raw[2] && self.raw[3] == other.raw[3];
        proof {
            if r {
                assert(self.raw@ =~= other.raw@);
            }
        }
        r
    }
}

impl Eq for ChunkType {

}

impl vstd::std_specs::cmp::PartialEqSpecImpl for ChunkType {
    open spec fn obeys_eq_spec() -> bool {
        true
    }

    open spec fn eq_spec(&self, other: &ChunkType) -> bool {
        self@ == other@
    }
}

impl View for ChunkType {
    type V = Seq<u8>;

    closed spec fn view(&self) -> Seq<u8> {
        self.raw@
    }
}

/// The view of every chunk type code holds exactly 4 bytes.
pub broadcast proof fn lemma_chunk_type_len(c: ChunkType)
    ensures
        (#[trigger] c@).len() == 4,
{
}

impl ChunkType {
    /// Store 4 raw bytes verbatim as a type code; never fails.
    pub fn from_bytes(value: [u8; 4]) -> (r: ChunkType)
        ensures
            r@ == value@,
    {
        ChunkType { raw: value }
    }

    /// Build a type code from a 4-letter text token; rejects text that is not
    /// exactly 4 bytes of ASCII letters.
    pub fn from_str(s: &str) -> (r: Result<ChunkType, PngError>)
        ensures
            match r {
                Ok(c) => c@ == s.spec_bytes() && s.spec_bytes().len() == 4 && (forall|i: int|
                    0 <= i < 4 ==> spec_is_ascii_letter(#[trigger] s.spec_bytes()[i])),
                Err(e) => e == PngError::InvalidFormat && !(s.spec_bytes().len() == 4
                    && (forall|i: int|
                    0 <= i < 4 ==> spec_is_ascii_letter(#[trigger] s.spec_bytes()[i]))),
            },
    {
        let bytes = s.as_bytes();
        if bytes.len() != 4 {
            return Err(PngError::InvalidFormat);
        }
        let mut i: usize = 0;
        while i < 4
            invariant
                0 <= i <= 4,
                bytes@.len() == 4,
                bytes@ == s.spec_bytes(),
                forall|j: int| 0 <= j < i ==> spec_is_ascii_letter(#[trigger] bytes@[j]),
            decreases 4 - i,
        {
            let b = bytes[i];
            if !((65 <= b && b <= 90) || (97 <= b && b <= 122)) {
                return Err(PngError::InvalidFormat);
            }
            i += 1;
        }
        let raw = [bytes[0], bytes[1], bytes[2], bytes[3]];
        proof {
            assert(raw@ =~= s.spec_bytes());
        }
        Ok(ChunkType { raw })
    }

    /// Get the raw bytes of this chunk type.
    pub fn bytes(&self) -> (r: [u8; 4])
        ensures
            r@ == self@,
    {
        self.raw
    }

    /// All 4 bytes are ASCII letters.
    pub open spec fn spec_is_ascii_letters(&self) -> bool {
        forall|i: int| 0 <= i < 4 ==> spec_is_ascii_letter(#[trigger] self@[i])
    }

    /// All 4 bytes are ASCII letters and the reserved bit rule holds.
    pub open spec fn spec_is_valid(&self) -> bool {
        self.spec_is_ascii_letters() && self.spec_is_reserved_bit_valid()
    }

    /// Check that the code is 4 ASCII letters and that the reserved bit
    /// (bit 5 of the third byte) is clear.
    pub fn is_valid(&self) -> (r: bool)
        ensures
            r == self.spec_is_valid(),
    {
        let mut i: usize = 0;
        let mut letters = true;
        while i < 4
            invariant
                0 <= i <= 4,
                letters ==> forall|j: int| 0 <= j < i ==> spec_is_ascii_letter(#[trigger] self@[j]),
                !letters ==> exists|j: int| 0 <= j < i && !spec_is_ascii_letter(#[trigger] self@[j]),
            decreases 4 - i,
        {
            let b = self.raw[i];
            if !((65 <= b && b <= 90) || (97 <= b && b <= 122)) {
                letters = false;
                proof {
                    assert(!spec_is_ascii_letter(self@[i as int]));
                }
            }
            i += 1;
        }
        letters && self.is_reserved_bit_valid()
    }

    /// Bit 5 of the first byte is clear: the chunk is critical rather than
    /// ancillary.
    pub open spec fn spec_is_critical(&self) -> bool {
        self@[0] & 0x20 == 0
    }

    /// 0 (uppercase) = critical, 1 (lowercase) = ancillary. A decoder that
    /// meets an unknown chunk whose ancillary bit is 1 can skip it safely; an
    /// unknown critical chunk must be reported to the user.
    pub fn is_critical(&self) -> (r: bool)
        ensures
            r == self.spec_is_critical(),
    {
        self.raw[0] & 0x20 == 0
    }

    /// Bit 5 of the second byte is clear: the chunk type is public.
    pub open spec fn spec_is_public(&self) -> bool {
        self@[1] & 0x20 == 0
    }

    /// 0 (uppercase) = public, 1 (lowercase) = private. Public chunk types
    /// are those assigned by the format's registry; applications may define
    /// private types with a lowercase second letter.
    pub fn is_public(&self) -> (r: bool)
        ensures
            r == self.spec_is_public(),
    {
        self.raw[1] & 0x20 == 0
    }

    /// Bit 5 of the third byte is clear: the reserved bit rule holds.
    pub open spec fn spec_is_reserved_bit_valid(&self) -> bool {
        self@[2] & 0x20 == 0
    }

    /// Must be 0 (uppercase) in conforming files. The case of the third
    /// letter is reserved for future expansion; at present all chunk names
    /// must have uppercase third letters.
    pub fn is_reserved_bit_valid(&self) -> (r: bool)
        ensures
            r == self.spec_is_reserved_bit_valid(),
    {
        self.raw[2] & 0x20 == 0
    }

    /// The 4 code bytes interpreted as UTF-8 text, or a placeholder when
    /// they are not valid UTF-8 (defensive: rendering must not fail on a
    /// code built from arbitrary raw bytes).
    pub fn to_text(&self) -> (r: String)
        ensures
            valid_utf8(self@) ==> r@ == decode_utf8(self@),
            !valid_utf8(self@) ==> r@ == "invalid"@,
    {
        let mut v: Vec<u8> = Vec::new();
        v.push(self.raw[0]);
        v.push(self.raw[1]);
        v.push(self.raw[2]);
        v.push(self.raw[3]);
        proof {
            assert(v@ =~= self@);
        }
        match crate::chunk::string_from_utf8(&v) {
            Some(s) => s,
            None => "invalid".to_owned(),
        }
    }

    /// Bit 5 of the fourth byte is set: the chunk is safe to copy.
    pub open spec fn spec_is_safe_to_copy(&self) -> bool {
        self@[3] & 0x20 != 0
    }

    /// 0 (uppercase) = unsafe to copy, 1 (lowercase) = safe to copy. This
    /// bit tells an editor how to handle unrecognized chunks in a file that
    /// is being modified.
    pub fn is_safe_to_copy(&self) -> (r: bool)
        ensures
            r == self.spec_is_safe_to_copy(),
    {
        self.raw[3] & 0x20 != 0
    }
}

} // verus!

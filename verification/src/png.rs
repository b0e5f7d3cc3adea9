//! The container: a fixed 8-byte signature followed by an ordered sequence
//! of chunks. Parsing verifies the signature, then decodes chunk after chunk
//! until a terminator chunk has been appended; serialization is the exact
//! inverse. The header-first and terminator-last layout is a format
//! convention checked at parse time, not an invariant enforced by every
//! mutation: chunks appended after a terminator are written out verbatim.

use crate::chunk::{
    chunk_view_wf, lemma_chunk_encode_decode, spec_chunk_encoding, spec_decode_chunk, Chunk,
    ChunkView,
};
use crate::PngError;
use vstd::prelude::*;
use vstd::string::{StringExecFns, StringSliceAdditionalSpecFns};
use vstd::utf8::{decode_utf8, valid_utf8};

verus! {

broadcast use crate::chunk_type::lemma_chunk_type_len;

/// The fixed 8 bytes that open every container.
pub const STANDARD_HEADER: [u8; 8] = [137, 80, 78, 71, 13, 10, 26, 10];

/// The type code of the terminator chunk, which marks end-of-container;
/// no chunk may validly follow it.
pub const TERMINATOR_TYPE: [u8; 4] = [73, 69, 78, 68];

/// The type code of the header chunk, which convention places first.
pub const HEADER_TYPE: [u8; 4] = [73, 72, 68, 82];

/// The signature bytes as a sequence.
pub open spec fn spec_signature() -> Seq<u8> {
    seq![137u8, 80u8, 78u8, 71u8, 13u8, 10u8, 26u8, 10u8]
}

/// The terminator type code as a sequence.
pub open spec fn spec_terminator() -> Seq<u8> {
    seq![73u8, 69u8, 78u8, 68u8]
}

/// The text form of one type code: its bytes as UTF-8, or a placeholder
/// when they are not valid UTF-8.
pub open spec fn spec_type_text(t: Seq<u8>) -> Seq<char> {
    if valid_utf8(t) {
        decode_utf8(t)
    } else {
        "invalid"@
    }
}

/// A line per chunk: its type code's text form followed by `\r\n`.
pub open spec fn spec_type_listing(cs: Seq<ChunkView>) -> Seq<char>
    decreases cs.len(),
{
    if cs.len() == 0 {
        Seq::empty()
    } else {
        spec_type_text(cs[0].t) + "\r\n"@ + spec_type_listing(cs.drop_first())
    }
}

/// The views of a sequence of chunks, in order.
pub open spec fn chunk_views(cs: Seq<Chunk>) -> Seq<ChunkView> {
    cs.map_values(|c: Chunk| c@)
}

/// The encoded forms of the chunks of `cs`, concatenated in order.
pub open spec fn spec_serialize_chunks(cs: Seq<ChunkView>) -> Seq<u8>
    decreases cs.len(),
{
    if cs.len() == 0 {
        Seq::empty()
    } else {
        spec_chunk_encoding(cs[0]) + spec_serialize_chunks(cs.drop_first())
    }
}

/// A serialized container: the signature, then every chunk's encoded form.
pub open spec fn spec_serialize(cs: Seq<ChunkView>) -> Seq<u8> {
    spec_signature() + spec_serialize_chunks(cs)
}

/// What parsing the chunk region `b` yields: the decoded chunks up to and
/// including the first terminator chunk, or the first error. An exhausted
/// buffer without a terminator is `MissingTerminator`; a chunk that cannot
/// be decoded propagates its own error.
pub open spec fn spec_parse_chunks(b: Seq<u8>) -> Result<Seq<ChunkView>, PngError>
    decreases b.len(),
{
    if b.len() == 0 {
        Err(PngError::MissingTerminator)
    } else {
        match spec_decode_chunk(b) {
            Err(e) => Err(e),
            Ok((cv, used)) => if cv.t == spec_terminator() {
                Ok(seq![cv])
            } else {
                match spec_parse_chunks(b.skip(used)) {
                    Err(e) => Err(e),
                    Ok(rest) => Ok(seq![cv] + rest),
                }
            },
        }
    }
}

/// What parsing a whole buffer yields: `BadSignature` unless the first 8
/// bytes are the signature, then the chunk region after them.
pub open spec fn spec_parse(b: Seq<u8>) -> Result<Seq<ChunkView>, PngError> {
    if b.len() < 8 || b.subrange(0, 8) != spec_signature() {
        Err(PngError::BadSignature)
    } else {
        spec_parse_chunks(b.skip(8))
    }
}

/// An ordered sequence of chunks; order defines the on-disk layout and is
/// preserved through round-trips.
#[derive(Debug)]
pub struct Png {
    chunks: Vec<Chunk>,
}

impl View for Png {
    type V = Seq<ChunkView>;

    closed spec fn view(&self) -> Seq<ChunkView> {
        chunk_views(self.chunks@)
    }
}

impl Png {
    /// Every chunk is well formed: a 4-byte type code and a payload that
    /// fits the length field.
    pub open spec fn wf(&self) -> bool {
        forall|i: int| 0 <= i < self@.len() ==> chunk_view_wf(#[trigger] self@[i])
    }

    /// Create a container from a collection of chunks.
    pub fn from_chunks(chunks: Vec<Chunk>) -> (r: Png)
        ensures
            r@ == chunk_views(chunks@),
    {
        Png { chunks }
    }

    /// Add a chunk to the end of this container, unconditionally.
    pub fn append_chunk(&mut self, chunk: Chunk)
        ensures
            final(self)@ == old(self)@.push(chunk@),
            old(self).wf() && chunk_view_wf(chunk@) ==> final(self).wf(),
    {
        self.chunks.push(chunk);
        proof {
            assert(self@ =~= old(self)@.push(chunk@));
        }
    }

    /// The signature bytes that open every serialized container.
    pub fn header(&self) -> (r: [u8; 8])
        ensures
            r@ == spec_signature(),
    {
        proof {
            assert(STANDARD_HEADER@ =~= spec_signature());
        }
        STANDARD_HEADER
    }

    /// Read-only view of the chunk sequence, preserving order.
    pub fn chunks(&self) -> (r: &[Chunk])
        ensures
            chunk_views(r@) == self@,
    {
        self.chunks.as_slice()
    }

    /// Remove and return the first chunk in sequence order whose type code
    /// equals the bytes of `chunk_type`; fails with `NotFound` when none
    /// matches.
    pub fn remove_chunk(&mut self, chunk_type: &str) -> (r: Result<Chunk, PngError>)
        ensures
            match r {
                Ok(c) => exists|i: int|
                    0 <= i < old(self)@.len() && (#[trigger] old(self)@[i]).t
                        == chunk_type.spec_bytes() && c@ == old(self)@[i] && final(self)@ == old(
                        self,
                    )@.remove(i) && (forall|j: int|
                        0 <= j < i ==> (#[trigger] old(self)@[j]).t != chunk_type.spec_bytes()),
                Err(e) => e == PngError::NotFound && final(self)@ == old(self)@ && (forall|j: int|
                    0 <= j < old(self)@.len() ==> (#[trigger] old(self)@[j]).t
                        != chunk_type.spec_bytes()),
            },
    {
        let target = chunk_type.as_bytes();
        let n = self.chunks.len();
        let mut i: usize = 0;
        while i < n
            invariant
                0 <= i <= n,
                self.chunks@ == old(self).chunks@,
                self@ == old(self)@,
                n == self.chunks@.len(),
                target@ == chunk_type.spec_bytes(),
                forall|j: int| 0 <= j < i ==> (#[trigger] self@[j]).t != chunk_type.spec_bytes(),
            decreases n - i,
        {
            if Self::code_matches(&self.chunks[i], target) {
                proof {
                    assert(old(self)@[i as int].t == chunk_type.spec_bytes());
                }
                let c = self.chunks.remove(i);
                proof {
                    assert(c@ == old(self)@[i as int]);
                    assert(self@ =~= old(self)@.remove(i as int));
                }
                return Ok(c);
            }
            i += 1;
        }
        Err(PngError::NotFound)
    }

    /// Whether the chunk's type code equals `target` byte for byte.
    fn code_matches(chunk: &Chunk, target: &[u8]) -> (r: bool)
        ensures
            r == (chunk@.t == target@),
    {
        let tb = chunk.chunk_type().bytes();
        if target.len() != 4 {
            return false;
        }
        let r = tb[0] == target[0] && tb[1] == target[1] && tb[2] == target[2] && tb[3]
            == target[3];
        proof {
            if r {
                assert(chunk@.t =~= target@);
            }
        }
        r
    }

    /// The first chunk in sequence order whose type code equals the bytes
    /// of `chunk_type`, or `None` when no chunk matches.
    pub fn chunk_by_type(&self, chunk_type: &str) -> (r: Option<&Chunk>)
        ensures
            match r {
                Some(c) => exists|i: int|
                    0 <= i < self@.len() && (#[trigger] self@[i]).t == chunk_type.spec_bytes()
                        && c@ == self@[i] && (forall|j: int|
                        0 <= j < i ==> (#[trigger] self@[j]).t != chunk_type.spec_bytes()),
                None => forall|j: int|
                    0 <= j < self@.len() ==> (#[trigger] self@[j]).t != chunk_type.spec_bytes(),
            },
    {
        let target = chunk_type.as_bytes();
        let n = self.chunks.len();
        let mut i: usize = 0;
        while i < n
            invariant
                0 <= i <= n,
                n == self.chunks@.len(),
                target@ == chunk_type.spec_bytes(),
                forall|j: int| 0 <= j < i ==> (#[trigger] self@[j]).t != chunk_type.spec_bytes(),
            decreases n - i,
        {
            if Self::code_matches(&self.chunks[i], target) {
                proof {
                    assert(self@[i as int].t == chunk_type.spec_bytes());
                }
                let c = &self.chunks[i];
                proof {
                    assert(c@ == self@[i as int]);
                }
                return Some(c);
            }
            i += 1;
        }
        None
    }

    /// One line of text per chunk, in sequence order: the chunk's type code
    /// rendered as text, each line ended by a carriage return and newline.
    pub fn type_listing(&self) -> (r: String)
        ensures
            r@ == spec_type_listing(self@),
    {
        let mut out = String::new();
        let n = self.chunks.len();
        let mut i: usize = 0;
        while i < n
            invariant
                0 <= i <= n,
                n == self.chunks@.len(),
                out@ == spec_type_listing(self@.take(i as int)),
            decreases n - i,
        {
            let line = self.chunks[i].chunk_type().to_text();
            out.append(line.as_str());
            out.append("\r\n");
            proof {
                lemma_type_listing_snoc(self@.take(i as int), self@[i as int]);
                assert(self@.take(i + 1) =~= self@.take(i as int).push(self@[i as int]));
                assert(self.chunks@[i as int]@ == self@[i as int]);
            }
            i += 1;
        }
        proof {
            assert(self@.take(n as int) =~= self@);
        }
        out
    }

    /// Serialize the container: the signature bytes followed by each chunk's
    /// encoded form, concatenated in sequence order.
    pub fn as_bytes(&self) -> (r: Vec<u8>)
        requires
            self.wf(),
        ensures
            r@ == spec_serialize(self@),
    {
        let mut out: Vec<u8> = Vec::new();
        out.push(137);
        out.push(80);
        out.push(78);
        out.push(71);
        out.push(13);
        out.push(10);
        out.push(26);
        out.push(10);
        proof {
            assert(out@ =~= spec_signature() + spec_serialize_chunks(self@.take(0)));
        }
        let n = self.chunks.len();
        let mut i: usize = 0;
        while i < n
            invariant
                0 <= i <= n,
                n == self.chunks@.len(),
                self.wf(),
                out@ == spec_signature() + spec_serialize_chunks(self@.take(i as int)),
            decreases n - i,
        {
            proof {
                assert(chunk_view_wf(self@[i as int]));
                assert(self.chunks@[i as int]@ == self@[i as int]);
            }
            let mut encoded = self.chunks[i].as_bytes();
            out.append(&mut encoded);
            proof {
                lemma_serialize_chunks_snoc(self@.take(i as int), self@[i as int]);
                assert(self@.take(i + 1) =~= self@.take(i as int).push(self@[i as int]));
            }
            i += 1;
        }
        proof {
            assert(self@.take(n as int) =~= self@);
        }
        out
    }

    /// Parse a container: verify the signature, then decode chunk after
    /// chunk, advancing by each chunk's consumed byte count, until a
    /// terminator chunk has been appended. Errors of a chunk that cannot be
    /// decoded propagate; an exhausted buffer without a terminator fails
    /// with `MissingTerminator`.
    pub fn parse(value: &[u8]) -> (r: Result<Png, PngError>)
        ensures
            match r {
                Ok(png) => png.wf() && spec_parse(value@) == Ok::<Seq<ChunkView>, PngError>(png@),
                Err(e) => spec_parse(value@) == Err::<Seq<ChunkView>, PngError>(e),
            },
    {
        if value.len() < 8 {
            return Err(PngError::BadSignature);
        }
        let mut k: usize = 0;
        while k < 8
            invariant
                0 <= k <= 8,
                value@.len() >= 8,
                forall|j: int| 0 <= j < k ==> value@[j] == spec_signature()[j],
            decreases 8 - k,
        {
            if value[k] != STANDARD_HEADER[k] {
                proof {
                    assert(value@.subrange(0, 8)[k as int] != spec_signature()[k as int]);
                }
                return Err(PngError::BadSignature);
            }
            proof {
                assert(STANDARD_HEADER@[k as int] == spec_signature()[k as int]);
            }
            k += 1;
        }
        proof {
            assert(value@.subrange(0, 8) =~= spec_signature());
        }
        let mut chunks: Vec<Chunk> = Vec::new();
        let mut idx: usize = 8;
        loop
            invariant
                8 <= idx <= value@.len(),
                value@.len() <= usize::MAX,
                value@.subrange(0, 8) == spec_signature(),
                forall|j: int| 0 <= j < chunk_views(chunks@).len() ==> chunk_view_wf(
                    #[trigger] chunk_views(chunks@)[j],
                ),
                spec_parse_chunks(value@.skip(8)) == spec_parse_rest(
                    chunk_views(chunks@),
                    value@.skip(idx as int),
                ),
            decreases value@.len() - idx,
        {
            if idx == value.len() {
                return Err(PngError::MissingTerminator);
            }
            let tail = &value[idx..value.len()];
            proof {
                assert(tail@ =~= value@.skip(idx as int));
            }
            match Chunk::decode(tail) {
                Err(e) => {
                    return Err(e);
                },
                Ok((chunk, used)) => {
                    let tb = chunk.chunk_type().bytes();
                    let is_term = tb[0] == TERMINATOR_TYPE[0] && tb[1] == TERMINATOR_TYPE[1]
                        && tb[2] == TERMINATOR_TYPE[2] && tb[3] == TERMINATOR_TYPE[3];
                    proof {
                        if is_term {
                            assert(chunk@.t =~= spec_terminator());
                        }
                        assert(value@.skip(idx as int).skip(used as int) =~= value@.skip(
                            idx + used,
                        ));
                    }
                    let ghost old_chunks = chunks@;
                    idx = idx + used;
                    chunks.push(chunk);
                    proof {
                        assert(chunk_views(chunks@) =~= chunk_views(old_chunks).push(chunk@));
                        if is_term {
                            assert(chunk_views(old_chunks).push(chunk@) =~= chunk_views(old_chunks)
                                + seq![chunk@]);
                        } else {
                            lemma_parse_rest_step(
                                chunk_views(old_chunks),
                                chunk@,
                                value@.skip(idx as int),
                            );
                        }
                    }
                    if is_term {
                        return Ok(Png { chunks });
                    }
                },
            }
        }
    }
}

/// Folding one more decoded chunk into the accumulator: parsing the rest of
/// the buffer after `acc ++ [cv]` yields the same overall result as parsing
/// it after `acc`.
proof fn lemma_parse_rest_step(acc: Seq<ChunkView>, cv: ChunkView, b: Seq<u8>)
    ensures
        spec_parse_rest(acc.push(cv), b) == (match spec_parse_chunks(b) {
            Err(e) => Err::<Seq<ChunkView>, PngError>(e),
            Ok(rest) => Ok::<Seq<ChunkView>, PngError>(acc + (seq![cv] + rest)),
        }),
{
    match spec_parse_chunks(b) {
        Err(e) => {},
        Ok(rest) => {
            assert(acc.push(cv) + rest =~= acc + (seq![cv] + rest));
        },
    }
}

/// The result of parsing a chunk region, with the chunks of `acc` already
/// accumulated in front of it.
spec fn spec_parse_rest(acc: Seq<ChunkView>, b: Seq<u8>) -> Result<Seq<ChunkView>, PngError> {
    match spec_parse_chunks(b) {
        Err(e) => Err(e),
        Ok(rest) => Ok(acc + rest),
    }
}

/// Listing one more chunk appends one more line.
proof fn lemma_type_listing_snoc(cs: Seq<ChunkView>, cv: ChunkView)
    ensures
        spec_type_listing(cs.push(cv)) == spec_type_listing(cs) + spec_type_text(cv.t) + "\r\n"@,
    decreases cs.len(),
{
    if cs.len() == 0 {
        let e = Seq::<ChunkView>::empty();
        assert(cs.push(cv)[0] == cv);
        assert(cs.push(cv).drop_first() =~= e);
        assert(spec_type_listing(e) == Seq::<char>::empty());
        assert(spec_type_listing(cs.push(cv)) == spec_type_text(cv.t) + "\r\n"@ + Seq::<
            char,
        >::empty());
        assert(spec_type_text(cv.t) + "\r\n"@ + Seq::<char>::empty() =~= spec_type_text(cv.t)
            + "\r\n"@);
        assert(spec_type_listing(cs) + spec_type_text(cv.t) + "\r\n"@ =~= spec_type_text(cv.t)
            + "\r\n"@);
    } else {
        assert(cs.push(cv).drop_first() =~= cs.drop_first().push(cv));
        lemma_type_listing_snoc(cs.drop_first(), cv);
        assert(spec_type_listing(cs.push(cv)) =~= spec_type_listing(cs) + spec_type_text(cv.t)
            + "\r\n"@);
    }
}

/// Serializing one more chunk appends its encoded form.
proof fn lemma_serialize_chunks_snoc(cs: Seq<ChunkView>, cv: ChunkView)
    ensures
        spec_serialize_chunks(cs.push(cv)) == spec_serialize_chunks(cs) + spec_chunk_encoding(cv),
    decreases cs.len(),
{
    if cs.len() == 0 {
        let e = Seq::<ChunkView>::empty();
        assert(cs.push(cv)[0] == cv);
        assert(cs.push(cv).drop_first() =~= e);
        assert(spec_serialize_chunks(e) == Seq::<u8>::empty());
        assert(spec_serialize_chunks(cs.push(cv)) == spec_chunk_encoding(cv)
            + Seq::<u8>::empty());
        assert(spec_chunk_encoding(cv) + Seq::<u8>::empty() =~= spec_chunk_encoding(cv));
        assert(spec_serialize_chunks(cs) + spec_chunk_encoding(cv) =~= spec_chunk_encoding(cv));
    } else {
        assert(cs.push(cv).drop_first() =~= cs.drop_first().push(cv));
        lemma_serialize_chunks_snoc(cs.drop_first(), cv);
        assert(spec_serialize_chunks(cs.push(cv)) =~= spec_serialize_chunks(cs)
            + spec_chunk_encoding(cv));
    }
}

/// Whatever chunk region parses successfully yields a non-empty, well-formed
/// chunk sequence whose last chunk, and only its last chunk, is a
/// terminator.
pub proof fn lemma_parsed_shape(b: Seq<u8>)
    requires
        spec_parse_chunks(b) is Ok,
    ensures
        ({
            let cs = spec_parse_chunks(b)->Ok_0;
            &&& cs.len() > 0
            &&& cs.last().t == spec_terminator()
            &&& forall|i: int|
                0 <= i < cs.len() - 1 ==> (#[trigger] cs[i]).t != spec_terminator()
            &&& forall|i: int| 0 <= i < cs.len() ==> chunk_view_wf(#[trigger] cs[i])
        }),
    decreases b.len(),
{
    let cs = spec_parse_chunks(b)->Ok_0;
    let r = spec_decode_chunk(b);
    let (cv, used) = r->Ok_0;
    assert(chunk_view_wf(cv));
    if cv.t == spec_terminator() {
        assert(cs == seq![cv]);
    } else {
        lemma_parsed_shape(b.skip(used));
        let rest = spec_parse_chunks(b.skip(used))->Ok_0;
        assert(cs == seq![cv] + rest);
        assert(cs.last() == rest.last());
        assert forall|i: int| 0 <= i < cs.len() - 1 implies (#[trigger] cs[i]).t
            != spec_terminator() by {
            if i > 0 {
                assert(cs[i] == rest[i - 1]);
            }
        }
        assert forall|i: int| 0 <= i < cs.len() implies chunk_view_wf(#[trigger] cs[i]) by {
            if i > 0 {
                assert(cs[i] == rest[i - 1]);
            }
        }
    }
}

/// Round-trip for parsed containers: the chunk sequence of a container
/// obtained by successful parsing serializes back to bytes that parse to
/// exactly that sequence again.
pub proof fn lemma_parse_serialize_parse(b: Seq<u8>)
    requires
        spec_parse(b) is Ok,
    ensures
        spec_parse(spec_serialize(spec_parse(b)->Ok_0)) == spec_parse(b),
{
    lemma_parsed_shape(b.skip(8));
    lemma_round_trip(spec_parse(b)->Ok_0);
}

/// Round-trip: a container built from well-formed chunks whose last chunk,
/// and only its last chunk, is a terminator, parses back from its serialized
/// form to exactly the same ordered chunk sequence.
pub proof fn lemma_round_trip(cs: Seq<ChunkView>)
    requires
        cs.len() > 0,
        forall|i: int| 0 <= i < cs.len() ==> chunk_view_wf(#[trigger] cs[i]),
        cs.last().t == spec_terminator(),
        forall|i: int| 0 <= i < cs.len() - 1 ==> (#[trigger] cs[i]).t != spec_terminator(),
    ensures
        spec_parse(spec_serialize(cs)) == Ok::<Seq<ChunkView>, PngError>(cs),
{
    let b = spec_serialize(cs);
    assert(b.subrange(0, 8) =~= spec_signature());
    assert(b.skip(8) =~= spec_serialize_chunks(cs));
    lemma_parse_chunks_of_serialized(cs);
}

/// One unfolding of `spec_parse_chunks` when a chunk decodes at the front.
proof fn lemma_parse_chunks_unfold(b: Seq<u8>, cv: ChunkView, used: int)
    requires
        b.len() > 0,
        spec_decode_chunk(b) == Ok::<(ChunkView, int), PngError>((cv, used)),
    ensures
        cv.t == spec_terminator() ==> spec_parse_chunks(b) == Ok::<Seq<ChunkView>, PngError>(
            seq![cv],
        ),
        cv.t != spec_terminator() ==> spec_parse_chunks(b) == (match spec_parse_chunks(
            b.skip(used),
        ) {
            Err(e) => Err::<Seq<ChunkView>, PngError>(e),
            Ok(rest) => Ok::<Seq<ChunkView>, PngError>(seq![cv] + rest),
        }),
{
}

/// Parsing inverts serializing for a chunk region whose last chunk, and
/// only its last chunk, is a terminator.
#[verifier::spinoff_prover]
#[verifier::rlimit(100)]
proof fn lemma_parse_chunks_of_serialized(cs: Seq<ChunkView>)
    requires
        cs.len() > 0,
        forall|i: int| 0 <= i < cs.len() ==> chunk_view_wf(#[trigger] cs[i]),
        cs.last().t == spec_terminator(),
        forall|i: int| 0 <= i < cs.len() - 1 ==> (#[trigger] cs[i]).t != spec_terminator(),
    ensures
        spec_parse_chunks(spec_serialize_chunks(cs)) == Ok::<Seq<ChunkView>, PngError>(cs),
    decreases cs.len(),
{
    let b = spec_serialize_chunks(cs);
    let rest = spec_serialize_chunks(cs.drop_first());
    assert(b == spec_chunk_encoding(cs[0]) + rest);
    lemma_chunk_encode_decode(cs[0], rest);
    let used = 12 + cs[0].d.len() as int;
    assert(spec_decode_chunk(b) == Ok::<(ChunkView, int), PngError>((cs[0], used)));
    assert(b.len() >= 12);
    lemma_parse_chunks_unfold(b, cs[0], used);
    if cs.len() == 1 {
        assert(cs[0] == cs.last());
        assert(seq![cs[0]] =~= cs);
    } else {
        assert(cs[0].t != spec_terminator());
        assert(b.skip(used) =~= rest);
        assert(cs.drop_first().last() == cs.last());
        lemma_parse_chunks_of_serialized(cs.drop_first());
        assert(spec_parse_chunks(b.skip(used)) == Ok::<Seq<ChunkView>, PngError>(
            cs.drop_first(),
        ));
        assert(seq![cs[0]] + cs.drop_first() =~= cs);
    }
}

} // verus!

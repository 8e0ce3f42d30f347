//! The container: the PNG signature followed by an ordered list of chunks.

use vstd::prelude::*;
use vstd::slice::slice_subrange;
use crate::bytes::{be_u32_value, u32_from_be};
use crate::chunk::{lemma_parse_chunk_serialize, parse_chunk, Chunk, ChunkView};
use crate::checksum::crc32_iso_hdlc;
use crate::error::Error;
use crate::text::ascii_text;

verus! {

/// The eight bytes that open every PNG stream.
pub open spec fn png_signature() -> Seq<u8> {
    seq![137u8, 80u8, 78u8, 71u8, 13u8, 10u8, 26u8, 10u8]
}

/// Puts `acc` in front of the chunks of a successful outcome.
pub open spec fn prepend(acc: Seq<ChunkView>, r: Result<Seq<ChunkView>, Error>) -> Result<
    Seq<ChunkView>,
    Error,
> {
    match r {
        Ok(cs) => Ok(acc + cs),
        Err(e) => Err(e),
    }
}

/// The outcome of reading chunks, one after another, until `rest` is used up
/// exactly.
pub open spec fn parse_chunks(rest: Seq<u8>) -> Result<Seq<ChunkView>, Error>
    decreases rest.len(),
{
    if rest.len() == 0 {
        Ok(seq![])
    } else if rest.len() < 4 {
        Err(Error::TruncatedInput)
    } else {
        let size = be_u32_value(rest) as int + 12;
        if rest.len() < size {
            Err(Error::TruncatedInput)
        } else {
            match parse_chunk(rest.subrange(0, size)) {
                Err(e) => Err(e),
                Ok(c) => prepend(seq![c], parse_chunks(rest.subrange(size, rest.len() as int))),
            }
        }
    }
}

/// The outcome of reading a whole stream: signature, then chunks.
pub open spec fn parse_png(b: Seq<u8>) -> Result<Seq<ChunkView>, Error> {
    if b.len() < 8 || b.subrange(0, 8) != png_signature() {
        Err(Error::InvalidHeader)
    } else {
        parse_chunks(b.subrange(8, b.len() as int))
    }
}

/// The chunks' bytes, one after another.
pub open spec fn serialize_chunks(cs: Seq<ChunkView>) -> Seq<u8>
    decreases cs.len(),
{
    if cs.len() == 0 {
        seq![]
    } else {
        cs[0].serialize() + serialize_chunks(cs.drop_first())
    }
}

/// Whether a chunk's type is named `name`.
pub open spec fn has_type(c: ChunkView, name: Seq<char>) -> bool {
    ascii_text(c.chunk_type) == name
}

/// `i` is the first position whose chunk has the type `name`.
pub open spec fn is_first_match(cs: Seq<ChunkView>, name: Seq<char>, i: int) -> bool {
    &&& 0 <= i < cs.len()
    &&& has_type(cs[i], name)
    &&& forall|j: int| 0 <= j < i ==> !has_type(#[trigger] cs[j], name)
}

/// The first position whose chunk has the type `name`, if any.
pub open spec fn find_index(cs: Seq<ChunkView>, name: Seq<char>) -> Option<int> {
    if exists|i: int| is_first_match(cs, name, i) {
        Some(choose|i: int| is_first_match(cs, name, i))
    } else {
        None
    }
}

/// A stream result that is the spec's outcome, seen through the view.
pub open spec fn png_result_is(r: Result<Png, Error>, s: Result<Seq<ChunkView>, Error>) -> bool {
    match r {
        Ok(p) => s is Ok && p@ == s->Ok_0 && p.wf(),
        Err(e) => s == Err::<Seq<ChunkView>, Error>(e),
    }
}

/// A PNG stream: its signature and its chunks, in order.
#[derive(Clone, Debug)]
pub struct Png {
    header: [u8; 8],
    chunks: Vec<Chunk>,
}

impl View for Png {
    type V = Seq<ChunkView>;

    closed spec fn view(&self) -> Seq<ChunkView> {
        self.chunks@.map_values(|c: Chunk| c@)
    }
}

impl Png {
    /// The PNG signature.
    pub const STANDARD_HEADER: [u8; 8] = [137, 80, 78, 71, 13, 10, 26, 10];

    /// The header is the signature and every chunk is well formed.
    pub closed spec fn wf(&self) -> bool {
        &&& self.header@ == png_signature()
        &&& forall|i: int| 0 <= i < self.chunks@.len() ==> (#[trigger] self.chunks@[i]).wf()
    }

    /// The signature bytes.
    fn signature() -> (r: [u8; 8])
        ensures
            r@ == png_signature(),
    {
        let r: [u8; 8] = Self::STANDARD_HEADER;
        assert(r@ =~= png_signature());
        r
    }

    /// Reads a whole stream: the signature, then chunks until the buffer is
    /// used up exactly. Any malformed chunk, or bytes too few for the next
    /// one, fail the whole read.
    pub fn from_bytes(bytes: &[u8]) -> (r: Result<Png, Error>)
        ensures
            png_result_is(r, parse_png(bytes@)),
    {
        let n = bytes.len();
        let header = Self::signature();
        if n < 8 {
            return Err(Error::InvalidHeader);
        }
        let mut i: usize = 0;
        while i < 8
            invariant
                i <= 8 <= n,
                n == bytes@.len(),
                header@ == png_signature(),
                forall|j: int| 0 <= j < i ==> bytes@[j] == #[trigger] png_signature()[j],
            decreases 8 - i,
        {
            if bytes[i] != header[i] {
                assert(bytes@.subrange(0, 8)[i as int] != png_signature()[i as int]);
                return Err(Error::InvalidHeader);
            }
            i = i + 1;
        }
        assert(bytes@.subrange(0, 8) =~= png_signature());
        assert(parse_png(bytes@) == parse_chunks(bytes@.subrange(8, n as int)));
        let ghost body = bytes@.subrange(8, n as int);
        let mut chunks: Vec<Chunk> = Vec::new();
        let mut off: usize = 8;
        assert(bytes@.subrange(off as int, n as int) == body);
        assert(Seq::<ChunkView>::empty() + chunks@.map_values(|c: Chunk| c@) =~= chunks@.map_values(|c: Chunk| c@));
        while off < n
            invariant
                8 <= off <= n,
                n == bytes@.len(),
                header@ == png_signature(),
                body == bytes@.subrange(8, n as int),
                parse_png(bytes@) == parse_chunks(body),
                parse_chunks(body) == prepend(
                    chunks@.map_values(|c: Chunk| c@),
                    parse_chunks(bytes@.subrange(off as int, n as int)),
                ),
                forall|k: int| 0 <= k < chunks@.len() ==> (#[trigger] chunks@[k]).wf(),
            decreases n - off,
        {
            let ghost rest = bytes@.subrange(off as int, n as int);
            let ghost acc = chunks@.map_values(|c: Chunk| c@);
            if n - off < 4 {
                return Err(Error::TruncatedInput);
            }
            let declared = u32_from_be(bytes, off);
            assert(be_u32_value(rest) == declared) by {
                assert(rest.subrange(0, 4) =~= bytes@.subrange(off as int, off + 4));
            }
            if declared as u64 + 12 > (n - off) as u64 {
                return Err(Error::TruncatedInput);
            }
            let size = (declared as u64 + 12) as usize;
            let piece = slice_subrange(bytes, off, off + size);
            assert(piece@ =~= rest.subrange(0, size as int));
            let chunk = match Chunk::from_bytes(piece) {
                Ok(c) => c,
                Err(e) => {
                    return Err(e);
                },
            };
            let ghost cv = chunk@;
            chunks.push(chunk);
            off = off + size;
            proof {
                assert(rest.subrange(size as int, rest.len() as int) =~= bytes@.subrange(off as int, n as int));
                assert(chunks@.map_values(|c: Chunk| c@) =~= acc.push(cv));
                match parse_chunks(bytes@.subrange(off as int, n as int)) {
                    Ok(cs) => {
                        assert(acc + (seq![cv] + cs) =~= acc.push(cv) + cs);
                    },
                    Err(e) => {},
                }
            }
        }
        assert(bytes@.subrange(off as int, n as int) =~= Seq::<u8>::empty());
        assert(chunks@.map_values(|c: Chunk| c@) + Seq::<ChunkView>::empty() =~= chunks@.map_values(|c: Chunk| c@));
        Ok(Png { header, chunks })
    }

    /// Adds a chunk at the end; no check of type or order is made.
    pub fn append_chunk(&mut self, chunk: Chunk)
        requires
            old(self).wf(),
            chunk.wf(),
        ensures
            final(self).wf(),
            final(self)@ == old(self)@.push(chunk@),
    {
        let ghost c = chunk@;
        self.chunks.push(chunk);
        assert(self.chunks@.map_values(|c: Chunk| c@) =~= old(self)@.push(c));
    }

    /// Removes and returns the first chunk whose type is named `chunk_type`,
    /// keeping the order of the others. Where none has that type the stream
    /// is left as it was.
    pub fn remove_chunk(&mut self, chunk_type: &str) -> (r: Result<Chunk, Error>)
        requires
            old(self).wf(),
        ensures
            final(self).wf(),
            match find_index(old(self)@, chunk_type@) {
                None => r == Err::<Chunk, Error>(Error::RecordNotFound) && final(self)@ == old(self)@,
                Some(i) => r is Ok && r->Ok_0@ == old(self)@[i] && r->Ok_0.wf()
                    && final(self)@ == old(self)@.remove(i),
            },
    {
        let ghost cs = self@;
        let mut i: usize = 0;
        while i < self.chunks.len()
            invariant
                self.wf(),
                self@ == cs,
                cs == old(self)@,
                i <= cs.len(),
                forall|j: int| 0 <= j < i ==> !has_type(#[trigger] cs[j], chunk_type@),
            decreases cs.len() - i,
        {
            assert(self.chunks@[i as int].wf());
            if self.chunks[i].chunk_type().has_name(chunk_type) {
                proof {
                    lemma_first_match_unique(cs, chunk_type@, i as int);
                }
                let ghost before = self.chunks@;
                let removed = self.chunks.remove(i);
                proof {
                    assert(removed == before[i as int]);
                    assert(cs[i as int] == removed@);
                    assert(removed.wf());
                    assert(self.chunks@ =~= before.remove(i as int));
                    assert(self.chunks@.map_values(|c: Chunk| c@) =~= cs.remove(i as int));
                    assert forall|k: int| 0 <= k < self.chunks@.len() implies (#[trigger] self.chunks@[k]).wf() by {
                        if k < i {
                            assert(self.chunks@[k] == before[k]);
                        } else {
                            assert(self.chunks@[k] == before[k + 1]);
                        }
                    }
                }
                return Ok(removed);
            }
            i = i + 1;
        }
        assert(!exists|k: int| is_first_match(cs, chunk_type@, k));
        Err(Error::RecordNotFound)
    }

    /// The chunks, in order.
    pub fn chunks(&self) -> (r: &[Chunk])
        ensures
            r@.map_values(|c: Chunk| c@) == self@,
    {
        self.chunks.as_slice()
    }

    /// The first chunk whose type is named `chunk_type`, if any.
    pub fn chunk_by_type(&self, chunk_type: &str) -> (r: Option<&Chunk>)
        requires
            self.wf(),
        ensures
            match find_index(self@, chunk_type@) {
                None => r is None,
                Some(i) => r is Some && r->Some_0@ == self@[i],
            },
    {
        let mut i: usize = 0;
        while i < self.chunks.len()
            invariant
                self.wf(),
                i <= self@.len(),
                forall|j: int| 0 <= j < i ==> !has_type(#[trigger] self@[j], chunk_type@),
            decreases self@.len() - i,
        {
            assert(self.chunks@[i as int].wf());
            if self.chunks[i].chunk_type().has_name(chunk_type) {
                proof {
                    lemma_first_match_unique(self@, chunk_type@, i as int);
                }
                return Some(&self.chunks[i]);
            }
            i = i + 1;
        }
        assert(!exists|k: int| is_first_match(self@, chunk_type@, k));
        None
    }

    /// The stream's bytes: the signature, then each chunk's bytes in order.
    pub fn as_bytes(&self) -> (r: Vec<u8>)
        requires
            self.wf(),
        ensures
            r@ == png_signature() + serialize_chunks(self@),
    {
        let mut r: Vec<u8> = Vec::new();
        let mut i: usize = 0;
        while i < 8
            invariant
                i <= 8,
                self.header@ == png_signature(),
                r@ == png_signature().subrange(0, i as int),
            decreases 8 - i,
        {
            r.push(self.header[i]);
            i = i + 1;
            assert(r@ =~= png_signature().subrange(0, i as int));
        }
        assert(png_signature().subrange(0, 8) =~= png_signature());
        let mut k: usize = 0;
        while k < self.chunks.len()
            invariant
                k <= self@.len(),
                r@ == png_signature() + serialize_chunks(self@.subrange(0, k as int)),
            decreases self@.len() - k,
        {
            let mut b = self.chunks[k].as_bytes();
            proof {
                lemma_serialize_chunks_push(self@.subrange(0, k as int), self@[k as int]);
                assert(self@.subrange(0, k as int).push(self@[k as int]) =~= self@.subrange(0, k + 1));
            }
            r.append(&mut b);
            k = k + 1;
        }
        assert(self@.subrange(0, self@.len() as int) =~= self@);
        r
    }
}

/// The first match is the one `find_index` picks.
proof fn lemma_first_match_unique(cs: Seq<ChunkView>, name: Seq<char>, i: int)
    requires
        is_first_match(cs, name, i),
    ensures
        find_index(cs, name) == Some(i),
{
    let k = choose|k: int| is_first_match(cs, name, k);
    assert(is_first_match(cs, name, k));
    if k < i {
        assert(!has_type(cs[k], name));
    } else if k > i {
        assert(!has_type(cs[i], name));
    }
}

/// Once a chunk is appended, looking up its type finds it, provided that no
/// earlier chunk has the same type.
pub proof fn lemma_append_then_find(cs: Seq<ChunkView>, c: ChunkView)
    requires
        forall|j: int| 0 <= j < cs.len() ==> !has_type(#[trigger] cs[j], ascii_text(c.chunk_type)),
    ensures
        find_index(cs.push(c), ascii_text(c.chunk_type)) == Some(cs.len() as int),
{
    let s = cs.push(c);
    assert forall|j: int| 0 <= j < cs.len() implies !has_type(#[trigger] s[j], ascii_text(c.chunk_type)) by {
        assert(s[j] == cs[j]);
    }
    lemma_first_match_unique(s, ascii_text(c.chunk_type), cs.len() as int);
}

/// Chunks read from bytes serialise to exactly those bytes.
pub proof fn lemma_parse_chunks_serialize(rest: Seq<u8>)
    requires
        parse_chunks(rest) is Ok,
    ensures
        serialize_chunks(parse_chunks(rest)->Ok_0) == rest,
    decreases rest.len(),
{
    if rest.len() > 0 {
        let size = be_u32_value(rest) as int + 12;
        let piece = rest.subrange(0, size);
        let tail = rest.subrange(size, rest.len() as int);
        lemma_parse_chunk_serialize(piece, crc32_iso_hdlc(piece.subrange(4, piece.len() - 4)));
        lemma_parse_chunks_serialize(tail);
        let c = parse_chunk(piece)->Ok_0;
        let cs = parse_chunks(tail)->Ok_0;
        let all = seq![c] + cs;
        assert(all[0] == c);
        assert(all.drop_first() =~= cs);
        assert(rest =~= piece + tail);
    }
}

/// Reading a stream and writing it back gives exactly the bytes read.
pub proof fn lemma_png_round_trip(b: Seq<u8>)
    requires
        parse_png(b) is Ok,
    ensures
        png_signature() + serialize_chunks(parse_png(b)->Ok_0) == b,
{
    lemma_parse_chunks_serialize(b.subrange(8, b.len() as int));
    assert(b =~= b.subrange(0, 8) + b.subrange(8, b.len() as int));
}

/// Serialising one more chunk adds its bytes at the end.
pub proof fn lemma_serialize_chunks_push(cs: Seq<ChunkView>, c: ChunkView)
    ensures
        serialize_chunks(cs.push(c)) == serialize_chunks(cs) + c.serialize(),
    decreases cs.len(),
{
    if cs.len() == 0 {
        let s = cs.push(c);
        assert(s[0] == c);
        assert(s.drop_first() =~= Seq::<ChunkView>::empty());
        assert(serialize_chunks(s.drop_first()) == Seq::<u8>::empty());
        assert(serialize_chunks(cs) == Seq::<u8>::empty());
        assert(serialize_chunks(s) =~= c.serialize());
    } else {
        assert(cs.push(c).drop_first() =~= cs.drop_first().push(c));
        lemma_serialize_chunks_push(cs.drop_first(), c);
        assert(serialize_chunks(cs.push(c)) =~= serialize_chunks(cs) + c.serialize());
    }
}

} // verus!

//! A single chunk: length, type, payload and CRC, and its byte form.

use vstd::prelude::*;
use vstd::slice::{slice_subrange, slice_to_vec};
use vstd::utf8::*;
use crate::bytes::{
    be_u32_bytes, be_u32_value, lemma_be_u32_bytes_of_value, lemma_be_u32_round_trip, u32_from_be,
    u32_to_be,
};
use crate::checksum::{crc32, crc32_iso_hdlc};
use crate::chunk_type::{valid_type_code, ChunkType};
use crate::error::Error;
use crate::text::string_from_utf8;

verus! {

/// What a chunk holds, as mathematical values.
pub struct ChunkView {
    pub length: u32,
    pub chunk_type: Seq<u8>,
    pub data: Seq<u8>,
    pub crc: u32,
}

impl ChunkView {
    /// The declared length is the payload's, and the type is a valid one.
    pub open spec fn wf(self) -> bool {
        &&& self.length as int == self.data.len()
        &&& valid_type_code(self.chunk_type)
    }

    /// The chunk's bytes in the stream: length, type, payload, CRC.
    pub open spec fn serialize(self) -> Seq<u8> {
        be_u32_bytes(self.length) + self.chunk_type + self.data + be_u32_bytes(self.crc)
    }
}

/// The chunk that a type and a payload make, with a fresh length and CRC.
pub open spec fn new_chunk_view(chunk_type: Seq<u8>, data: Seq<u8>) -> ChunkView {
    ChunkView {
        length: data.len() as u32,
        chunk_type,
        data,
        crc: crc32_iso_hdlc(chunk_type + data),
    }
}

/// The outcome of reading one chunk that fills `b` exactly, where `computed`
/// is the CRC of the bytes between the length and the stored CRC. Checks run
/// in order: size of the frame, declared length, type, CRC.
#[verifier::opaque]
pub open spec fn parse_chunk_with(b: Seq<u8>, computed: u32) -> Result<ChunkView, Error> {
    if b.len() < 12 {
        Err(Error::TruncatedInput)
    } else if b.len() - 12 != be_u32_value(b) as int {
        Err(Error::InvalidLength { declared: be_u32_value(b), framed: (b.len() - 12) as usize })
    } else if !valid_type_code(b.subrange(4, 8)) {
        Err(Error::InvalidTypeCode)
    } else if be_u32_value(b.subrange(b.len() - 4, b.len() as int)) != computed {
        Err(Error::InvalidChecksum {
            stored: be_u32_value(b.subrange(b.len() - 4, b.len() as int)),
            computed,
        })
    } else {
        Ok(
            ChunkView {
                length: be_u32_value(b),
                chunk_type: b.subrange(4, 8),
                data: b.subrange(8, b.len() - 4),
                crc: computed,
            },
        )
    }
}

/// The outcome of reading one chunk that fills `b` exactly.
pub open spec fn parse_chunk(b: Seq<u8>) -> Result<ChunkView, Error> {
    parse_chunk_with(b, crc32_iso_hdlc(b.subrange(4, b.len() - 4)))
}

/// A chunk result that is the spec's outcome, seen through the view.
pub open spec fn chunk_result_is(r: Result<Chunk, Error>, s: Result<ChunkView, Error>) -> bool {
    match r {
        Ok(c) => s is Ok && c@ == s->Ok_0 && c.wf(),
        Err(e) => s == Err::<ChunkView, Error>(e),
    }
}

/// One chunk of the stream.
#[derive(Clone, Debug)]
pub struct Chunk {
    length: u32,
    chunk_type: ChunkType,
    data: Vec<u8>,
    crc: u32,
}

impl View for Chunk {
    type V = ChunkView;

    closed spec fn view(&self) -> ChunkView {
        ChunkView {
            length: self.length,
            chunk_type: self.chunk_type@,
            data: self.data@,
            crc: self.crc,
        }
    }
}

impl Chunk {
    /// The chunk's length and type are consistent (see [`ChunkView::wf`]).
    pub open spec fn wf(&self) -> bool {
        self@.wf()
    }

    /// Whether the stored CRC is that of the type and payload.
    pub open spec fn crc_matches(&self) -> bool {
        self@.crc == crc32_iso_hdlc(self@.chunk_type + self@.data)
    }

    /// The type's bytes followed by the payload: what the CRC covers.
    fn checked_bytes(chunk_type: &ChunkType, data: &Vec<u8>) -> (r: Vec<u8>)
        ensures
            r@ == chunk_type@ + data@,
    {
        let t = chunk_type.bytes();
        let mut r: Vec<u8> = Vec::new();
        let mut i: usize = 0;
        while i < 4
            invariant
                i <= 4,
                t@ == chunk_type@,
                t@.len() == 4,
                r@ == t@.subrange(0, i as int),
            decreases 4 - i,
        {
            r.push(t[i]);
            i = i + 1;
            assert(r@ =~= t@.subrange(0, i as int));
        }
        let mut j: usize = 0;
        while j < data.len()
            invariant
                j <= data@.len(),
                t@ == chunk_type@,
                r@ == t@ + data@.subrange(0, j as int),
            decreases data@.len() - j,
        {
            r.push(data[j]);
            j = j + 1;
            assert(r@ =~= t@ + data@.subrange(0, j as int));
        }
        assert(data@.subrange(0, data@.len() as int) =~= data@);
        r
    }

    /// A chunk of the given type and payload, with its length and CRC
    /// computed afresh.
    pub fn new(chunk_type: ChunkType, data: Vec<u8>) -> (r: Chunk)
        requires
            chunk_type.wf(),
            data@.len() <= u32::MAX,
        ensures
            r@ == new_chunk_view(chunk_type@, data@),
            r.wf(),
            r.crc_matches(),
    {
        let covered = Self::checked_bytes(&chunk_type, &data);
        let crc = crc32(covered.as_slice());
        Chunk { length: data.len() as u32, chunk_type, data, crc }
    }

    /// The declared payload length.
    pub fn length(&self) -> (r: u32)
        ensures
            r == self@.length,
    {
        self.length
    }

    /// The chunk's type.
    pub fn chunk_type(&self) -> (r: &ChunkType)
        ensures
            r@ == self@.chunk_type,
    {
        &self.chunk_type
    }

    /// The raw payload bytes.
    pub fn data(&self) -> (r: &[u8])
        ensures
            r@ == self@.data,
    {
        self.data.as_slice()
    }

    /// The stored CRC.
    pub fn crc(&self) -> (r: u32)
        ensures
            r == self@.crc,
    {
        self.crc
    }

    /// The payload decoded as UTF-8 text, refused if it is not valid UTF-8.
    pub fn data_as_string(&self) -> (r: Result<String, Error>)
        ensures
            r is Ok <==> valid_utf8(self@.data),
            r matches Ok(s) ==> s@ == decode_utf8(self@.data),
            r matches Err(e) ==> e == Error::NonTextPayload,
    {
        match string_from_utf8(self.data.clone()) {
            Some(s) => Ok(s),
            None => Err(Error::NonTextPayload),
        }
    }

    /// The chunk's bytes in the stream.
    pub fn as_bytes(&self) -> (r: Vec<u8>)
        ensures
            r@ == self@.serialize(),
    {
        let len = u32_to_be(self.length);
        let t = self.chunk_type.bytes();
        let crc = u32_to_be(self.crc);
        let mut r: Vec<u8> = Vec::new();
        let mut i: usize = 0;
        while i < 4
            invariant
                i <= 4,
                r@ == len@.subrange(0, i as int),
            decreases 4 - i,
        {
            r.push(len[i]);
            i = i + 1;
            assert(r@ =~= len@.subrange(0, i as int));
        }
        assert(len@.subrange(0, 4) =~= len@);
        let mut i: usize = 0;
        while i < 4
            invariant
                i <= 4,
                r@ == len@ + t@.subrange(0, i as int),
            decreases 4 - i,
        {
            r.push(t[i]);
            i = i + 1;
            assert(r@ =~= len@ + t@.subrange(0, i as int));
        }
        assert(t@.subrange(0, 4) =~= t@);
        let mut j: usize = 0;
        while j < self.data.len()
            invariant
                j <= self.data@.len(),
                r@ == len@ + t@ + self.data@.subrange(0, j as int),
            decreases self.data@.len() - j,
        {
            r.push(self.data[j]);
            j = j + 1;
            assert(r@ =~= len@ + t@ + self.data@.subrange(0, j as int));
        }
        assert(self.data@.subrange(0, self.data@.len() as int) =~= self.data@);
        let mut i: usize = 0;
        while i < 4
            invariant
                i <= 4,
                r@ == len@ + t@ + self.data@ + crc@.subrange(0, i as int),
            decreases 4 - i,
        {
            r.push(crc[i]);
            i = i + 1;
            assert(r@ =~= len@ + t@ + self.data@ + crc@.subrange(0, i as int));
        }
        assert(crc@.subrange(0, 4) =~= crc@);
        r
    }

    /// Reads a chunk that fills `bytes` exactly, given the CRC computed over
    /// the bytes between its length and its stored CRC.
    pub fn from_bytes_with_crc(bytes: &[u8], computed: u32) -> (r: Result<Chunk, Error>)
        ensures
            chunk_result_is(r, parse_chunk_with(bytes@, computed)),
    {
        reveal(parse_chunk_with);
        let n = bytes.len();
        if n < 12 {
            return Err(Error::TruncatedInput);
        }
        let declared = u32_from_be(bytes, 0);
        if (n - 12) as u64 != declared as u64 {
            return Err(Error::InvalidLength { declared, framed: n - 12 });
        }
        let type_bytes: [u8; 4] = [bytes[4], bytes[5], bytes[6], bytes[7]];
        assert(type_bytes@ =~= bytes@.subrange(4, 8));
        let chunk_type = match ChunkType::from_bytes(type_bytes) {
            Ok(t) => t,
            Err(e) => return Err(e),
        };
        let stored = u32_from_be(bytes, n - 4);
        if stored != computed {
            return Err(Error::InvalidChecksum { stored, computed });
        }
        let data = slice_to_vec(slice_subrange(bytes, 8, n - 4));
        Ok(Chunk { length: declared, chunk_type, data, crc: stored })
    }

    /// Reads a chunk that fills `bytes` exactly: the frame's size and the
    /// declared length are checked before the CRC is computed.
    pub fn from_bytes(bytes: &[u8]) -> (r: Result<Chunk, Error>)
        ensures
            chunk_result_is(r, parse_chunk(bytes@)),
            r matches Ok(c) ==> c.crc_matches(),
    {
        reveal(parse_chunk_with);
        let n = bytes.len();
        if n < 12 || (n - 12) as u64 != u32_from_be(bytes, 0) as u64 {
            // The frame is refused on its size or length alone; no CRC is
            // computed over bytes that are not a chunk's.
            return Self::from_bytes_with_crc(bytes, 0);
        }
        let computed = crc32(slice_subrange(bytes, 4, n - 4));
        let r = Self::from_bytes_with_crc(bytes, computed);
        proof {
            if r is Ok {
                assert(bytes@.subrange(4, n - 4) =~= r->Ok_0@.chunk_type + r->Ok_0@.data);
            }
        }
        r
    }
}

/// A chunk read from bytes serialises to exactly those bytes.
pub proof fn lemma_parse_chunk_serialize(b: Seq<u8>, computed: u32)
    requires
        parse_chunk_with(b, computed) is Ok,
    ensures
        parse_chunk_with(b, computed)->Ok_0.serialize() == b,
{
    reveal(parse_chunk_with);
    let v = parse_chunk_with(b, computed)->Ok_0;
    let n = b.len();
    lemma_be_u32_bytes_of_value(b.subrange(0, 4));
    assert(be_u32_value(b.subrange(0, 4)) == be_u32_value(b));
    lemma_be_u32_bytes_of_value(b.subrange(n - 4, n as int));
    assert(v.serialize() =~= b);
}

/// Serialising a new chunk and reading the bytes back gives that chunk.
pub proof fn lemma_chunk_round_trip(chunk_type: Seq<u8>, data: Seq<u8>)
    requires
        valid_type_code(chunk_type),
        data.len() <= u32::MAX,
    ensures
        parse_chunk(new_chunk_view(chunk_type, data).serialize()) == Ok::<ChunkView, Error>(
            new_chunk_view(chunk_type, data),
        ),
{
    reveal(parse_chunk_with);
    let v = new_chunk_view(chunk_type, data);
    let b = v.serialize();
    let n = b.len();
    lemma_be_u32_round_trip(v.length);
    lemma_be_u32_round_trip(v.crc);
    assert(b.subrange(0, 4) =~= be_u32_bytes(v.length));
    assert(be_u32_value(b) == be_u32_value(b.subrange(0, 4)));
    assert(b.subrange(4, 8) =~= chunk_type);
    assert(b.subrange(n - 4, n as int) =~= be_u32_bytes(v.crc));
    assert(b.subrange(8, n - 4) =~= data);
    assert(b.subrange(4, n - 4) =~= chunk_type + data);
}

} // verus!

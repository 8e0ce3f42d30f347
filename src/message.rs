//! Hiding a text message in a chunk of a PNG stream, finding it again and
//! taking it out. The caller reads and writes the files; these functions work
//! on the bytes.

use vstd::prelude::*;
use vstd::utf8::*;
use crate::chunk::{new_chunk_view, Chunk};
use crate::chunk_type::{is_lower, is_upper, text_bytes, valid_type_text, ChunkType};
use crate::error::Error;
use crate::png::{
    find_index, lemma_png_round_trip, parse_png, png_signature, serialize_chunks, Png,
};

verus! {

/// A type fit to carry a hidden message: ancillary, private and safe to copy.
pub open spec fn is_hiding_type(t: Seq<u8>) -> bool {
    !is_upper(t[0]) && !is_upper(t[1]) && is_lower(t[3])
}

/// Whether a chunk type is fit to carry a hidden message.
pub fn hides_messages(t: &ChunkType) -> (r: bool)
    ensures
        r == is_hiding_type(t@),
{
    !t.is_critical() && !t.is_public() && t.is_safe_to_copy()
}

/// Adds a chunk of type `chunk_type` holding `message` at the end of the
/// stream in `png`, and returns the new stream's bytes. The type must be
/// valid and fit to carry a message; the stream must read without error.
pub fn encode_message(png: &[u8], chunk_type: &str, message: &str) -> (r: Result<Vec<u8>, Error>)
    requires
        encode_utf8(message@).len() <= u32::MAX,
    ensures
        !valid_type_text(chunk_type@) ==> r == Err::<Vec<u8>, Error>(Error::InvalidTypeCode),
        valid_type_text(chunk_type@) && !is_hiding_type(text_bytes(chunk_type@)) ==> r == Err::<
            Vec<u8>,
            Error,
        >(Error::InvalidTypeCode),
        valid_type_text(chunk_type@) && is_hiding_type(text_bytes(chunk_type@)) ==> match parse_png(
            png@,
        ) {
            Err(e) => r == Err::<Vec<u8>, Error>(e),
            Ok(cs) => r is Ok && r->Ok_0@ == png_signature() + serialize_chunks(
                cs.push(new_chunk_view(text_bytes(chunk_type@), encode_utf8(message@))),
            ),
        },
{
    let t = match ChunkType::from_text(chunk_type) {
        Ok(t) => t,
        Err(e) => return Err(e),
    };
    if !hides_messages(&t) {
        return Err(Error::InvalidTypeCode);
    }
    let data = vstd::slice::slice_to_vec(message.as_bytes());
    let chunk = Chunk::new(t, data);
    let mut p = match Png::from_bytes(png) {
        Ok(p) => p,
        Err(e) => return Err(e),
    };
    p.append_chunk(chunk);
    Ok(p.as_bytes())
}

/// The message held by the first chunk of type `chunk_type` in the stream in
/// `png`, or `None` where no chunk has that type.
pub fn decode_message(png: &[u8], chunk_type: &str) -> (r: Result<Option<String>, Error>)
    ensures
        match parse_png(png@) {
            Err(e) => r == Err::<Option<String>, Error>(e),
            Ok(cs) => match find_index(cs, chunk_type@) {
                None => r == Ok::<Option<String>, Error>(None),
                Some(i) => if valid_utf8(cs[i].data) {
                    r matches Ok(Some(s)) && s@ == decode_utf8(cs[i].data)
                } else {
                    r == Err::<Option<String>, Error>(Error::NonTextPayload)
                },
            },
        },
{
    let p = match Png::from_bytes(png) {
        Ok(p) => p,
        Err(e) => return Err(e),
    };
    match p.chunk_by_type(chunk_type) {
        None => Ok(None),
        Some(c) => match c.data_as_string() {
            Ok(s) => Ok(Some(s)),
            Err(e) => Err(e),
        },
    }
}

/// Takes the first chunk of type `chunk_type` out of the stream in `png`.
/// Returns that chunk, if there was one, and the stream's bytes afterwards;
/// where there was none these are the bytes given.
pub fn remove_message(png: &[u8], chunk_type: &str) -> (r: Result<(Option<Chunk>, Vec<u8>), Error>)
    ensures
        match parse_png(png@) {
            Err(e) => r == Err::<(Option<Chunk>, Vec<u8>), Error>(e),
            Ok(cs) => r is Ok && match find_index(cs, chunk_type@) {
                None => r->Ok_0.0 is None && r->Ok_0.1@ == png@,
                Some(i) => r->Ok_0.0 matches Some(c) && c@ == cs[i] && r->Ok_0.1@ == png_signature()
                    + serialize_chunks(cs.remove(i)),
            },
        },
{
    let mut p = match Png::from_bytes(png) {
        Ok(p) => p,
        Err(e) => return Err(e),
    };
    let removed = match p.remove_chunk(chunk_type) {
        Ok(c) => Some(c),
        Err(_) => None,
    };
    proof {
        if removed is None {
            lemma_png_round_trip(png@);
        }
    }
    Ok((removed, p.as_bytes()))
}

} // verus!

//! The four-letter chunk type, whose letter case encodes property bits.

use vstd::prelude::*;
use vstd::utf8::*;
use crate::error::Error;
use crate::text::{all_ascii, ascii_text, lemma_ascii_utf8, string_from_utf8};

verus! {

/// An ASCII upper-case letter.
pub open spec fn is_upper(b: u8) -> bool {
    65 <= b <= 90
}

/// An ASCII lower-case letter.
pub open spec fn is_lower(b: u8) -> bool {
    97 <= b <= 122
}

/// An ASCII letter of either case.
pub open spec fn is_ascii_letter(b: u8) -> bool {
    is_upper(b) || is_lower(b)
}

/// Four ASCII letters, the third of them upper case (the reserved bit set).
pub open spec fn valid_type_code(b: Seq<u8>) -> bool {
    &&& b.len() == 4
    &&& forall|i: int| 0 <= i < 4 ==> is_ascii_letter(#[trigger] b[i])
    &&& is_upper(b[2])
}

/// An ASCII letter, as a character.
pub open spec fn is_letter_char(c: char) -> bool {
    ('A' <= c <= 'Z') || ('a' <= c <= 'z')
}

/// Four ASCII letters, the third of them upper case, as text.
pub open spec fn valid_type_text(s: Seq<char>) -> bool {
    &&& s.len() == 4
    &&& forall|i: int| 0 <= i < 4 ==> is_letter_char(#[trigger] s[i])
    &&& 'A' <= s[2] <= 'Z'
}

/// The byte of each character, for text whose characters are all ASCII.
pub open spec fn text_bytes(s: Seq<char>) -> Seq<u8> {
    s.map_values(|c: char| c as u8)
}

/// A chunk type: four bytes, each an ASCII letter. The properties are read
/// from the bytes each time they are asked for, never stored beside them.
#[derive(Clone, Copy, Debug, Eq)]
pub struct ChunkType {
    bytes: [u8; 4],
}

impl View for ChunkType {
    type V = Seq<u8>;

    closed spec fn view(&self) -> Seq<u8> {
        self.bytes@
    }
}

/// Two chunk types are equal when their bytes are.
impl PartialEq for ChunkType {
    fn eq(&self, other: &ChunkType) -> (r: bool) {
        let r = self.bytes[0] == other.bytes[0] && self.bytes[1] == other.bytes[1]
            && self.bytes[2] == other.bytes[2] && self.bytes[3] == other.bytes[3];
        proof {
            if r {
                assert(self@ =~= other@);
            }
        }
        r
    }
}

impl vstd::std_specs::cmp::PartialEqSpecImpl for ChunkType {
    open spec fn obeys_eq_spec() -> bool {
        true
    }

    open spec fn eq_spec(&self, other: &ChunkType) -> bool {
        self@ == other@
    }
}

impl ChunkType {
    /// The type is four letters with the reserved bit set; every constructor
    /// establishes it.
    pub open spec fn wf(&self) -> bool {
        valid_type_code(self@)
    }

    /// Builds a chunk type from four raw bytes, which must be ASCII letters
    /// with the third one upper case.
    pub fn from_bytes(bytes: [u8; 4]) -> (r: Result<ChunkType, Error>)
        ensures
            r is Ok <==> valid_type_code(bytes@),
            r matches Ok(t) ==> t@ == bytes@ && t.wf(),
            r matches Err(e) ==> e == Error::InvalidTypeCode,
    {
        let t = ChunkType { bytes };
        if t.is_valid() {
            Ok(t)
        } else {
            Err(Error::InvalidTypeCode)
        }
    }

    /// Builds a chunk type from its four-letter name, under the same rule as
    /// [`ChunkType::from_bytes`]. Text of any other length is refused.
    pub fn from_text(s: &str) -> (r: Result<ChunkType, Error>)
        ensures
            r is Ok <==> valid_type_text(s@),
            r matches Ok(t) ==> t@ == text_bytes(s@) && t.wf(),
            r matches Err(e) ==> e == Error::InvalidTypeCode,
    {
        let b = s.as_bytes();
        proof {
            if valid_type_text(s@) {
                Self::lemma_valid_text_bytes(s@);
            }
        }
        if b.len() != 4 {
            return Err(Error::InvalidTypeCode);
        }
        let arr: [u8; 4] = [b[0], b[1], b[2], b[3]];
        assert(arr@ =~= b@);
        let r = Self::from_bytes(arr);
        proof {
            if r is Ok {
                assert(all_ascii(b@));
                lemma_ascii_utf8(b@);
                encode_utf8_decode_utf8(s@);
                assert(s@ == ascii_text(b@));
                assert(text_bytes(s@) =~= b@);
            }
        }
        r
    }

    /// Valid text is ASCII, so its UTF-8 encoding is its characters' bytes.
    proof fn lemma_valid_text_bytes(s: Seq<char>)
        requires
            valid_type_text(s),
        ensures
            encode_utf8(s) == text_bytes(s),
            valid_type_code(text_bytes(s)),
    {
        assert(is_ascii_chars(s)) by {
            assert forall|i: int| 0 <= i < s.len() implies '\0' <= #[trigger] s[i] <= '\u{7f}' by {
                assert(is_letter_char(s[i]));
            }
        }
        is_ascii_chars_encode_utf8(s);
        assert(encode_utf8(s) =~= text_bytes(s));
        let b = text_bytes(s);
        assert forall|i: int| 0 <= i < 4 implies is_ascii_letter(#[trigger] b[i]) by {
            assert(is_letter_char(s[i]));
        }
    }

    /// Whether the type's name is `name`.
    pub fn has_name(&self, name: &str) -> (r: bool)
        requires
            self.wf(),
        ensures
            r == (ascii_text(self@) == name@),
    {
        let b = name.as_bytes();
        proof {
            assert(all_ascii(self@));
            lemma_ascii_utf8(self@);
            encode_utf8_decode_utf8(name@);
        }
        if b.len() != 4 {
            assert(ascii_text(self@).len() == 4);
            return false;
        }
        let r = b[0] == self.bytes[0] && b[1] == self.bytes[1] && b[2] == self.bytes[2] && b[3] == self.bytes[3];
        proof {
            if r {
                assert(b@ =~= self@);
            }
        }
        r
    }

    /// The four raw bytes.
    pub fn bytes(&self) -> (r: [u8; 4])
        ensures
            r@ == self@,
    {
        self.bytes
    }

    /// Whether the four bytes are letters and the reserved bit is set.
    pub fn is_valid(&self) -> (r: bool)
        ensures
            r == valid_type_code(self@),
    {
        let mut ans: bool = self.is_reserved_bit_valid();
        let mut i: usize = 0;
        while i < 4
            invariant
                i <= 4,
                ans == (is_upper(self@[2]) && forall|j: int| 0 <= j < i ==> is_ascii_letter(#[trigger] self@[j])),
            decreases 4 - i,
        {
            ans = ans && Self::is_valid_byte(self.bytes[i]);
            i = i + 1;
        }
        ans
    }

    /// The type's name as text; its bytes are ASCII, so this cannot fail.
    pub fn as_string(&self) -> (r: String)
        requires
            self.wf(),
        ensures
            r@ == ascii_text(self@),
    {
        let v: Vec<u8> = vec![self.bytes[0], self.bytes[1], self.bytes[2], self.bytes[3]];
        assert(v@ =~= self@);
        proof {
            assert(all_ascii(v@));
            lemma_ascii_utf8(v@);
        }
        match string_from_utf8(v) {
            Some(s) => s,
            None => String::new(),
        }
    }

    /// Whether a byte is an ASCII letter.
    pub fn is_valid_byte(byte: u8) -> (r: bool)
        ensures
            r == is_ascii_letter(byte),
    {
        (65 <= byte && byte <= 90) || (97 <= byte && byte <= 122)
    }

    /// Critical (first letter upper case) rather than ancillary.
    pub fn is_critical(&self) -> (r: bool)
        ensures
            r == is_upper(self@[0]),
    {
        65 <= self.bytes[0] && self.bytes[0] <= 90
    }

    /// Public (second letter upper case) rather than private.
    pub fn is_public(&self) -> (r: bool)
        ensures
            r == is_upper(self@[1]),
    {
        65 <= self.bytes[1] && self.bytes[1] <= 90
    }

    /// The reserved bit (third letter upper case) is set, as it must be.
    pub fn is_reserved_bit_valid(&self) -> (r: bool)
        ensures
            r == is_upper(self@[2]),
    {
        65 <= self.bytes[2] && self.bytes[2] <= 90
    }

    /// Safe to copy (fourth letter lower case).
    pub fn is_safe_to_copy(&self) -> (r: bool)
        ensures
            r == is_lower(self@[3]),
    {
        97 <= self.bytes[3] && self.bytes[3] <= 122
    }
}

} // verus!

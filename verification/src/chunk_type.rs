//! The four-letter type code of a chunk.
//!
//! A code is four ASCII letters. The case of each letter is a flag: bit 5 of
//! a letter is clear in upper case and set in lower case. The first letter
//! tells critical from ancillary chunks, the second public from private ones,
//! the third is reserved and has to be upper-case in a valid code, and the
//! fourth tells whether the chunk is safe to copy.

use crate::text::{ascii_text, lemma_ascii_text_utf8};
use std::str::FromStr;
use vstd::prelude::*;
use vstd::std_specs::cmp::PartialEqSpecImpl;
use vstd::std_specs::convert::TryFromSpecImpl;
use vstd::string::StringSliceAdditionalSpecFns;
use vstd::utf8::{decode_utf8, encode_utf8, encode_utf8_decode_utf8, valid_utf8};

verus! {

/// `b` is one of `A`-`Z` or `a`-`z`.
pub open spec fn is_ascii_letter(b: u8) -> bool {
    (65 <= b <= 90) || (97 <= b <= 122)
}

/// Bit 5 of `b`, the bit in which an upper-case and a lower-case letter differ.
pub open spec fn case_bit(b: u8) -> bool {
    b & 0x20 != 0
}

/// `code` is four ASCII letters.
pub open spec fn is_letter_code(code: Seq<u8>) -> bool {
    &&& code.len() == 4
    &&& forall|i: int| 0 <= i < 4 ==> is_ascii_letter(#[trigger] code[i])
}

/// `code` is four ASCII letters and its reserved bit, bit 5 of the third
/// letter, is clear.
pub open spec fn is_valid_code(code: Seq<u8>) -> bool {
    is_letter_code(code) && !case_bit(code[2])
}

/// Whether `b` is an ASCII letter.
pub fn is_letter(b: u8) -> (r: bool)
    ensures
        r == is_ascii_letter(b),
{
    (65 <= b && b <= 90) || (97 <= b && b <= 122)
}

/// Why a byte array was refused as a type code.
#[derive(Debug, Clone, Copy, PartialEq, Eq)]
pub struct InvalidChunkType;

/// Why a string was refused as a type code.
#[derive(Debug, Clone, Copy, PartialEq, Eq)]
pub enum ChunkTypeError {
    /// The string is not four bytes long.
    InvalidLength,
    /// One of the four bytes is not an ASCII letter.
    NotAlphanumeric,
}

/// A chunk's type code: four ASCII letters.
///
/// A code comes from four bytes, through `try_from`, which takes valid codes
/// only, or from a string, through `from_str`, which takes any four letters
/// and leaves the reserved bit to `is_valid`. Its view is its four bytes.
#[derive(Debug)]
pub struct ChunkType {
    bytes: [u8; 4],
}

impl View for ChunkType {
    type V = Seq<u8>;

    closed spec fn view(&self) -> Seq<u8> {
        self.bytes@
    }
}

impl ChunkType {
    #[verifier::type_invariant]
    spec fn only_letters(&self) -> bool {
        is_letter_code(self.bytes@)
    }

    /// The four bytes of the code. They are always letters.
    pub fn bytes(&self) -> (r: [u8; 4])
        ensures
            r@ == self@,
            is_letter_code(self@),
    {
        proof {
            use_type_invariant(self);
        }
        self.bytes
    }

    /// Whether the chunk is critical: bit 5 of the first letter is clear.
    pub fn is_critical(&self) -> (r: bool)
        ensures
            r == !case_bit(self@[0]),
    {
        self.bytes[0] & 0x20 == 0
    }

    /// Whether the chunk is public: bit 5 of the second letter is clear.
    pub fn is_public(&self) -> (r: bool)
        ensures
            r == !case_bit(self@[1]),
    {
        self.bytes[1] & 0x20 == 0
    }

    /// Whether the reserved bit, bit 5 of the third letter, is clear.
    pub fn is_reserved_bit_valid(&self) -> (r: bool)
        ensures
            r == !case_bit(self@[2]),
    {
        self.bytes[2] & 0x20 == 0
    }

    /// Whether the chunk is safe to copy: bit 5 of the fourth letter is set.
    pub fn is_safe_to_copy(&self) -> (r: bool)
        ensures
            r == case_bit(self@[3]),
    {
        self.bytes[3] & 0x20 != 0
    }

    /// Whether all four bytes are letters, which they always are.
    pub fn is_alphanumeric(&self) -> (r: bool)
        ensures
            r,
            r == is_letter_code(self@),
    {
        proof {
            use_type_invariant(self);
        }
        is_letter(self.bytes[0]) && is_letter(self.bytes[1]) && is_letter(self.bytes[2])
            && is_letter(self.bytes[3])
    }

    /// Whether the code is valid: letters, with the reserved bit clear.
    pub fn is_valid(&self) -> (r: bool)
        ensures
            r == is_valid_code(self@),
    {
        self.is_alphanumeric() && self.is_reserved_bit_valid()
    }

    /// Whether `text` is the code as text.
    pub fn has_text(&self, text: &str) -> (r: bool)
        ensures
            r == (ascii_text(self@) == text@),
    {
        let b = text.as_bytes();
        let r = b.len() == 4 && b[0] == self.bytes[0] && b[1] == self.bytes[1] && b[2]
            == self.bytes[2] && b[3] == self.bytes[3];
        proof {
            use_type_invariant(self);
            lemma_letter_code_is_text(self.bytes@);
            encode_utf8_decode_utf8(text@);
            if r {
                assert(b@ =~= self.bytes@);
            }
        }
        r
    }

    /// The code as text: its four letters.
    pub fn to_string(&self) -> (r: String)
        ensures
            r@ == ascii_text(self@),
    {
        let mut bytes: Vec<u8> = Vec::new();
        bytes.push(self.bytes[0]);
        bytes.push(self.bytes[1]);
        bytes.push(self.bytes[2]);
        bytes.push(self.bytes[3]);
        proof {
            use_type_invariant(self);
            assert(bytes@ =~= self.bytes@);
            lemma_letter_code_is_text(bytes@);
        }
        String::from_utf8(bytes).unwrap()
    }
}

impl Clone for ChunkType {
    fn clone(&self) -> (r: ChunkType)
        ensures
            r == *self,
    {
        proof {
            use_type_invariant(self);
        }
        ChunkType { bytes: self.bytes }
    }
}

impl PartialEq for ChunkType {
    /// Two codes are equal if their bytes are.
    fn eq(&self, other: &ChunkType) -> (r: bool) {
        let r = self.bytes[0] == other.bytes[0] && self.bytes[1] == other.bytes[1]
            && self.bytes[2] == other.bytes[2] && self.bytes[3] == other.bytes[3];
        proof {
            if r {
                assert(self.bytes@ =~= other.bytes@);
            }
        }
        r
    }
}

impl Eq for ChunkType {

}

impl PartialEqSpecImpl for ChunkType {
    open spec fn obeys_eq_spec() -> bool {
        true
    }

    open spec fn eq_spec(&self, other: &ChunkType) -> bool {
        self@ == other@
    }
}

impl TryFrom<[u8; 4]> for ChunkType {
    type Error = InvalidChunkType;

    /// Accepts exactly the valid codes, and keeps the bytes as they are.
    fn try_from(bytes: [u8; 4]) -> (r: Result<ChunkType, InvalidChunkType>)
        ensures
            r is Ok <==> is_valid_code(bytes@),
            r matches Ok(t) ==> t@ == bytes@,
    {
        if is_letter(bytes[0]) && is_letter(bytes[1]) && is_letter(bytes[2]) && is_letter(bytes[3])
            && bytes[2] & 0x20 == 0 {
            Ok(ChunkType { bytes })
        } else {
            Err(InvalidChunkType)
        }
    }
}

impl TryFromSpecImpl<[u8; 4]> for ChunkType {
    open spec fn obeys_try_from_spec() -> bool {
        true
    }

    closed spec fn try_from_spec(bytes: [u8; 4]) -> Result<ChunkType, InvalidChunkType> {
        if is_valid_code(bytes@) {
            Ok(ChunkType { bytes })
        } else {
            Err(InvalidChunkType)
        }
    }
}

impl FromStr for ChunkType {
    type Err = ChunkTypeError;

    /// Accepts exactly the strings of four ASCII letters, whatever their
    /// case, and keeps the letters as they are. A string of another length
    /// in bytes is refused for its length, and any other for its bytes.
    fn from_str(s: &str) -> (r: Result<ChunkType, ChunkTypeError>)
        ensures
            r is Ok <==> is_letter_code(s.spec_bytes()),
            r matches Ok(t) ==> t@ == s.spec_bytes() && ascii_text(t@) == s@,
            r matches Err(e) ==> e == (if s.spec_bytes().len() != 4 {
                ChunkTypeError::InvalidLength
            } else {
                ChunkTypeError::NotAlphanumeric
            }),
    {
        let b = s.as_bytes();
        if b.len() != 4 {
            return Err(ChunkTypeError::InvalidLength);
        }
        if is_letter(b[0]) && is_letter(b[1]) && is_letter(b[2]) && is_letter(b[3]) {
            let bytes = [b[0], b[1], b[2], b[3]];
            proof {
                assert(bytes@ =~= b@);
                lemma_letter_code_is_text(b@);
                encode_utf8_decode_utf8(s@);
            }
            Ok(ChunkType { bytes })
        } else {
            Err(ChunkTypeError::NotAlphanumeric)
        }
    }
}

/// On a letter the case bit is set exactly when the letter is lower-case.
pub proof fn lemma_case_bit_is_case(b: u8)
    requires
        is_ascii_letter(b),
    ensures
        case_bit(b) <==> 97 <= b <= 122,
        !case_bit(b) <==> 65 <= b <= 90,
{
    assert((65 <= b <= 90) ==> b & 0x20 == 0) by (bit_vector);
    assert((97 <= b <= 122) ==> b & 0x20 != 0) by (bit_vector);
}

/// The valid codes are the four-letter codes whose third letter is upper-case;
/// the case of the other three is free.
pub proof fn lemma_valid_code_by_case(code: Seq<u8>)
    ensures
        is_valid_code(code) <==> is_letter_code(code) && 65 <= code[2] <= 90,
{
    if is_letter_code(code) {
        lemma_case_bit_is_case(code[2]);
    }
}

/// A letter code is the UTF-8 encoding of its own text.
pub proof fn lemma_letter_code_is_text(code: Seq<u8>)
    requires
        is_letter_code(code),
    ensures
        valid_utf8(code),
        decode_utf8(code) == ascii_text(code),
        encode_utf8(ascii_text(code)) == code,
{
    assert forall|i: int| 0 <= i < code.len() implies #[trigger] code[i] < 128 by {
        assert(is_ascii_letter(code[i]));
    }
    lemma_ascii_text_utf8(code);
}

} // verus!

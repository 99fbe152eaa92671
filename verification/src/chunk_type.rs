//! The four-letter type code of a chunk.

use crate::text::{bytes_as_text, text_of_bytes};
use std::str::FromStr;
use vstd::prelude::*;
use vstd::std_specs::cmp::PartialEqSpecImpl;
use vstd::std_specs::convert::TryFromSpecImpl;
use vstd::string::*;

verus! {

/// `b` is one of `A` to `Z`.
pub open spec fn is_upper(b: u8) -> bool {
    65 <= b && b <= 90
}

/// `b` is one of `a` to `z`.
pub open spec fn is_lower(b: u8) -> bool {
    97 <= b && b <= 122
}

/// `b` is an ASCII letter.
pub open spec fn is_letter(b: u8) -> bool {
    is_upper(b) || is_lower(b)
}

/// Every byte of `codes` is an ASCII letter.
pub open spec fn all_letters(codes: Seq<u8>) -> bool {
    forall|i: int| 0 <= i < codes.len() ==> is_letter(#[trigger] codes[i])
}

/// `c` is an ASCII letter.
pub open spec fn is_letter_char(c: char) -> bool {
    ('A' <= c && c <= 'Z') || ('a' <= c && c <= 'z')
}

/// A text names a chunk type when it has at least four characters and every
/// one of them, also those after the fourth, is an ASCII letter.
pub open spec fn text_names_type(text: Seq<char>) -> bool {
    &&& text.len() >= 4
    &&& forall|i: int| 0 <= i < text.len() ==> is_letter_char(#[trigger] text[i])
}

/// The four bytes that a text's first four characters give.
pub open spec fn text_codes(text: Seq<char>) -> Seq<u8>
    recommends
        text.len() >= 4,
{
    Seq::new(4, |i: int| text[i] as u8)
}

/// Why four bytes, or a text, are no chunk type.
#[derive(Clone, Copy, Debug, PartialEq, Eq, Structural)]
pub enum ChunkTypeError {
    /// The third byte is not an upper-case letter.
    ReservedBit,
    /// Some byte is not an ASCII letter, or a text is shorter than four
    /// characters.
    InvalidByte,
}

impl ChunkTypeError {
    /// The text that describes the error.
    pub open spec fn message(self) -> Seq<char> {
        match self {
            ChunkTypeError::ReservedBit => "using Reserved Bit"@,
            ChunkTypeError::InvalidByte => ""@,
        }
    }

    /// Describes the error. An invalid byte has no description.
    pub fn to_string(&self) -> (s: String)
        ensures
            s@ == self.message(),
    {
        match self {
            ChunkTypeError::ReservedBit => "using Reserved Bit".to_owned(),
            ChunkTypeError::InvalidByte => "".to_owned(),
        }
    }
}

/// What is wrong with four bytes offered as a chunk type, if anything. The
/// reserved bit is looked at first.
pub open spec fn codes_fault(codes: Seq<u8>) -> Option<ChunkTypeError>
    recommends
        codes.len() == 4,
{
    if !is_upper(codes[2]) {
        Some(ChunkTypeError::ReservedBit)
    } else if !all_letters(codes) {
        Some(ChunkTypeError::InvalidByte)
    } else {
        None
    }
}

/// Tells whether `b` is one of `A` to `Z`.
pub fn is_ascii_uppercase(b: u8) -> (r: bool)
    ensures
        r == is_upper(b),
{
    65 <= b && b <= 90
}

/// Tells whether `b` is one of `a` to `z`.
pub fn is_ascii_lowercase(b: u8) -> (r: bool)
    ensures
        r == is_lower(b),
{
    97 <= b && b <= 122
}

/// Tells whether every byte of `bytes` is an ASCII letter.
pub fn is_ascii_alphabetic(bytes: &[u8]) -> (r: bool)
    ensures
        r == all_letters(bytes@),
{
    let mut i: usize = 0;
    while i < bytes.len()
        invariant
            0 <= i <= bytes@.len(),
            forall|j: int| 0 <= j < i ==> is_letter(#[trigger] bytes@[j]),
        decreases bytes@.len() - i,
    {
        if !(is_ascii_uppercase(bytes[i]) || is_ascii_lowercase(bytes[i])) {
            assert(!is_letter(bytes@[i as int]));
            return false;
        }
        i += 1;
    }
    true
}

/// A chunk type: four ASCII letters whose case carries four flags.
#[derive(Clone, Copy, Debug)]
pub struct ChunkType {
    codes: [u8; 4],
}

impl View for ChunkType {
    type V = Seq<u8>;

    closed spec fn view(&self) -> Seq<u8> {
        self.codes@
    }
}

impl ChunkType {
    #[verifier::type_invariant]
    spec fn inv(self) -> bool {
        all_letters(self.codes@)
    }

    /// What holds of the bytes of every chunk type: there are four, all of
    /// them ASCII letters.
    pub open spec fn wf(&self) -> bool {
        &&& self@.len() == 4
        &&& all_letters(self@)
    }

    /// Chunk types with the same bytes are the same chunk type.
    pub proof fn lemma_view_injective(a: ChunkType, b: ChunkType)
        requires
            a@ == b@,
        ensures
            a == b,
    {
        assert(a.codes =~= b.codes);
    }

    /// The four bytes.
    pub fn bytes(&self) -> (codes: [u8; 4])
        ensures
            codes@ == self@,
            self.wf(),
    {
        proof {
            use_type_invariant(self);
        }
        self.codes
    }

    /// A chunk type is valid when its bytes are letters and its reserved bit
    /// is valid.
    pub fn is_valid(&self) -> (r: bool)
        ensures
            r == (all_letters(self@) && is_upper(self@[2])),
            r == is_upper(self@[2]),
    {
        proof {
            use_type_invariant(self);
        }
        self.is_only_alphabetic() && self.is_reserved_bit_valid()
    }

    /// Critical chunks have an upper-case first letter.
    pub fn is_critical(&self) -> (r: bool)
        ensures
            r == is_upper(self@[0]),
    {
        is_ascii_uppercase(self.codes[0])
    }

    /// Public chunks have an upper-case second letter.
    pub fn is_public(&self) -> (r: bool)
        ensures
            r == is_upper(self@[1]),
    {
        is_ascii_uppercase(self.codes[1])
    }

    /// The reserved bit is valid when the third letter is upper case.
    pub fn is_reserved_bit_valid(&self) -> (r: bool)
        ensures
            r == is_upper(self@[2]),
    {
        is_ascii_uppercase(self.codes[2])
    }

    /// Chunks that are safe to copy have a lower-case fourth letter.
    pub fn is_safe_to_copy(&self) -> (r: bool)
        ensures
            r == is_lower(self@[3]),
    {
        is_ascii_lowercase(self.codes[3])
    }

    /// Tells whether all four bytes are ASCII letters, which holds of every
    /// chunk type.
    pub fn is_only_alphabetic(&self) -> (r: bool)
        ensures
            r == all_letters(self@),
            r,
    {
        proof {
            use_type_invariant(self);
        }
        is_ascii_alphabetic(self.codes.as_slice())
    }

    /// The four letters as text.
    pub fn to_string(&self) -> (s: String)
        ensures
            s@ == bytes_as_text(self@),
    {
        text_of_bytes(self.codes.as_slice())
    }
}

impl TryFromSpecImpl<[u8; 4]> for ChunkType {
    open spec fn obeys_try_from_spec() -> bool {
        true
    }

    closed spec fn try_from_spec(value: [u8; 4]) -> Result<Self, ChunkTypeError> {
        match codes_fault(value@) {
            Some(e) => Err(e),
            None => Ok(ChunkType { codes: value }),
        }
    }
}

impl TryFrom<[u8; 4]> for ChunkType {
    type Error = ChunkTypeError;

    /// Accepts four ASCII letters of which the third is upper case. The
    /// reserved bit is tested before the letters.
    fn try_from(value: [u8; 4]) -> (r: Result<Self, ChunkTypeError>)
        ensures
            match codes_fault(value@) {
                Some(e) => r == Err::<ChunkType, ChunkTypeError>(e),
                None => r matches Ok(t) && t@ == value@,
            },
    {
        if !is_ascii_uppercase(value[2]) {
            Err(ChunkTypeError::ReservedBit)
        } else if !is_ascii_alphabetic(value.as_slice()) {
            Err(ChunkTypeError::InvalidByte)
        } else {
            Ok(ChunkType { codes: value })
        }
    }
}

impl FromStr for ChunkType {
    type Err = ChunkTypeError;

    /// Accepts a text of ASCII letters, at least four of them, and takes the
    /// first four. The reserved bit is not tested.
    fn from_str(s: &str) -> (r: Result<Self, ChunkTypeError>)
        ensures
            if text_names_type(s@) {
                r matches Ok(t) && t@ == text_codes(s@)
            } else {
                r == Err::<ChunkType, ChunkTypeError>(ChunkTypeError::InvalidByte)
            },
    {
        if !s.is_ascii() {
            return Err(ChunkTypeError::InvalidByte);
        }
        let bytes = s.as_bytes();
        proof {
            is_ascii_spec_bytes(s);
        }
        if !is_ascii_alphabetic(bytes) {
            return Err(ChunkTypeError::InvalidByte);
        }
        if bytes.len() < 4 {
            return Err(ChunkTypeError::InvalidByte);
        }
        let codes: [u8; 4] = [bytes[0], bytes[1], bytes[2], bytes[3]];
        assert(codes@ =~= text_codes(s@));
        assert forall|i: int| 0 <= i < s@.len() implies is_letter_char(#[trigger] s@[i]) by {
            assert(is_letter(bytes@[i]));
            assert('\0' <= s@[i] <= '\u{7f}');
            assert(s@[i] as u8 == s@[i] as int);
        }
        Ok(ChunkType { codes })
    }
}

impl PartialEqSpecImpl for ChunkType {
    open spec fn obeys_eq_spec() -> bool {
        true
    }

    open spec fn eq_spec(&self, other: &ChunkType) -> bool {
        self@ == other@
    }
}

impl PartialEq for ChunkType {
    /// Two chunk types are equal when their bytes are.
    fn eq(&self, other: &ChunkType) -> (r: bool)
        ensures
            r == (self@ == other@),
    {
        let mut i: usize = 0;
        while i < 4
            invariant
                0 <= i <= 4,
                forall|j: int| 0 <= j < i ==> self.codes@[j] == other.codes@[j],
            decreases 4 - i,
        {
            if self.codes[i] != other.codes[i] {
                return false;
            }
            i += 1;
        }
        assert(self.codes@ =~= other.codes@);
        true
    }
}

impl Eq for ChunkType {

}

} // verus!

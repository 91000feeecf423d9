use vstd::prelude::*;

use crate::errors::PngError;
use crate::text::ascii_to_string;

verus! {

/// A byte that is an ASCII letter, `A`-`Z` or `a`-`z`.
pub open spec fn is_letter(b: u8) -> bool {
    (65 <= b && b <= 90) || (97 <= b && b <= 122)
}

/// Every byte of the sequence is an ASCII letter.
pub open spec fn all_letters(s: Seq<u8>) -> bool {
    forall|i: int| 0 <= i < s.len() ==> is_letter(#[trigger] s[i])
}

/// A character that is an ASCII letter.
pub open spec fn is_letter_char(c: char) -> bool {
    (65 <= c as u32 && c as u32 <= 90) || (97 <= c as u32 && c as u32 <= 122)
}

/// The text form of a 4-byte type code: four characters, one per byte, each
/// with the byte's code point.
pub open spec fn type_text_matches(ty: Seq<u8>, s: Seq<char>) -> bool {
    s.len() == 4 && forall|i: int| 0 <= i < 4 ==> (#[trigger] s[i]) as u32 == ty[i] as u32
}

/// A 4-byte chunk type identifier. Each byte must be an ASCII letter; the
/// case bit (0x20) of each byte encodes one structural property.
#[derive(Debug, Clone, Copy)]
pub struct ChunkType {
    data: [u8; 4],
}

impl View for ChunkType {
    type V = Seq<u8>;

    closed spec fn view(&self) -> Seq<u8> {
        self.data@
    }
}

impl PartialEq for ChunkType {
    fn eq(&self, other: &ChunkType) -> (r: bool) {
        let r = self.data[0] == other.data[0] && self.data[1] == other.data[1] && self.data[2]
            == other.data[2] && self.data[3] == other.data[3];
        proof {
            if r {
                assert(self.data@ =~= other.data@);
            }
            if self.data@ == other.data@ {
                assert(self.data@[0] == other.data@[0]);
                assert(self.data@[1] == other.data@[1]);
                assert(self.data@[2] == other.data@[2]);
                assert(self.data@[3] == other.data@[3]);
            }
        }
        r
    }
}

impl vstd::std_specs::cmp::PartialEqSpecImpl for ChunkType {
    open spec fn obeys_eq_spec() -> bool {
        true
    }

    open spec fn eq_spec(&self, other: &ChunkType) -> bool {
        self@ == other@
    }
}

fn is_letter_byte(b: u8) -> (r: bool)
    ensures
        r == is_letter(b),
{
    (65 <= b && b <= 90) || (97 <= b && b <= 122)
}

fn char_letter_byte(c: char) -> (r: Option<u8>)
    ensures
        match r {
            Some(b) => is_letter_char(c) && b as u32 == c as u32 && is_letter(b),
            None => !is_letter_char(c),
        },
{
    let u = c as u32;
    if (65 <= u && u <= 90) || (97 <= u && u <= 122) {
        Some(u as u8)
    } else {
        None
    }
}

impl ChunkType {
    /// A well-formed type code holds exactly four ASCII letters.
    pub open spec fn wf(&self) -> bool {
        self@.len() == 4 && all_letters(self@)
    }

    /// Builds a type code from four raw bytes; rejected with
    /// `InvalidTypeCode` exactly when some byte is not an ASCII letter.
    pub fn parse_bytes(data: [u8; 4]) -> (r: Result<ChunkType, PngError>)
        ensures
            match r {
                Ok(t) => all_letters(data@) && t@ == data@ && t.wf(),
                Err(e) => !all_letters(data@) && e == PngError::InvalidTypeCode,
            },
    {
        let t = ChunkType { data };
        if t.is_all_letter() {
            Ok(t)
        } else {
            Err(PngError::InvalidTypeCode)
        }
    }

    /// Builds a type code from its text form; rejected with
    /// `InvalidTypeCode` exactly when the text is not four ASCII letters.
    pub fn parse_text(s: &str) -> (r: Result<ChunkType, PngError>)
        ensures
            match r {
                Ok(t) => s@.len() == 4 && (forall|i: int|
                    0 <= i < 4 ==> is_letter_char(#[trigger] s@[i])) && t.wf()
                    && type_text_matches(t@, s@),
                Err(e) => e == PngError::InvalidTypeCode && (s@.len() != 4 || exists|i: int|
                    0 <= i < 4 && !is_letter_char(#[trigger] s@[i])),
            },
    {
        if s.unicode_len() != 4 {
            return Err(PngError::InvalidTypeCode);
        }
        let b0 = match char_letter_byte(s.get_char(0)) {
            Some(b) => b,
            None => {
                return Err(PngError::InvalidTypeCode);
            },
        };
        let b1 = match char_letter_byte(s.get_char(1)) {
            Some(b) => b,
            None => {
                return Err(PngError::InvalidTypeCode);
            },
        };
        let b2 = match char_letter_byte(s.get_char(2)) {
            Some(b) => b,
            None => {
                return Err(PngError::InvalidTypeCode);
            },
        };
        let b3 = match char_letter_byte(s.get_char(3)) {
            Some(b) => b,
            None => {
                return Err(PngError::InvalidTypeCode);
            },
        };
        let t = ChunkType { data: [b0, b1, b2, b3] };
        proof {
            assert(t@ =~= seq![b0, b1, b2, b3]);
        }
        Ok(t)
    }

    /// The raw 4-byte array of the type code.
    pub fn bytes(&self) -> (r: [u8; 4])
        ensures
            r@ == self@,
    {
        self.data
    }

    /// The text form: four characters, one per byte. Requires a well-formed
    /// code, whose bytes are all ASCII.
    pub fn to_text(&self) -> (r: String)
        requires
            self.wf(),
        ensures
            type_text_matches(self@, r@),
    {
        ascii_to_string(self.data.as_slice())
    }

    pub fn is_all_letter(&self) -> (r: bool)
        ensures
            r == all_letters(self@),
    {
        let mut i: usize = 0;
        while i < 4
            invariant
                0 <= i <= 4,
                forall|j: int| 0 <= j < i ==> is_letter(#[trigger] self@[j]),
            decreases 4 - i,
        {
            if !is_letter_byte(self.data[i]) {
                return false;
            }
            i += 1;
        }
        true
    }

    /// The chunk is critical when the case bit of byte 0 is clear (uppercase).
    pub open spec fn spec_is_critical(&self) -> bool {
        self@[0] & 0x20 == 0
    }

    pub fn is_critical(&self) -> (r: bool)
        ensures
            r == self.spec_is_critical(),
    {
        self.data[0] & 0x20 == 0
    }

    /// The chunk is public when the case bit of byte 1 is clear (uppercase).
    pub open spec fn spec_is_public(&self) -> bool {
        self@[1] & 0x20 == 0
    }

    pub fn is_public(&self) -> (r: bool)
        ensures
            r == self.spec_is_public(),
    {
        self.data[1] & 0x20 == 0
    }

    /// The reserved bit is valid when the case bit of byte 2 is clear
    /// (uppercase).
    pub open spec fn spec_is_reserved_bit_valid(&self) -> bool {
        self@[2] & 0x20 == 0
    }

    pub fn is_reserved_bit_valid(&self) -> (r: bool)
        ensures
            r == self.spec_is_reserved_bit_valid(),
    {
        self.data[2] & 0x20 == 0
    }

    /// The chunk is safe to copy when the case bit of byte 3 is set
    /// (lowercase).
    pub open spec fn spec_is_safe_to_copy(&self) -> bool {
        self@[3] & 0x20 == 0x20
    }

    pub fn is_safe_to_copy(&self) -> (r: bool)
        ensures
            r == self.spec_is_safe_to_copy(),
    {
        self.data[3] & 0x20 == 0x20
    }

    /// Overall validity: all bytes are letters and the reserved bit is clear.
    pub open spec fn spec_is_valid(&self) -> bool {
        all_letters(self@) && self.spec_is_reserved_bit_valid()
    }

    pub fn is_valid(&self) -> (r: bool)
        ensures
            r == self.spec_is_valid(),
    {
        self.is_all_letter() && self.is_reserved_bit_valid()
    }
}

/// For a four-letter type code, overall validity is decided by the reserved
/// bit alone: bit 0x20 of byte 2 must be clear, whatever case the other three
/// bytes carry.
pub proof fn lemma_valid_iff_reserved_bit_clear(t: ChunkType)
    requires
        t.wf(),
    ensures
        t.spec_is_valid() <==> (t@[2] & 0x20) == 0,
{
}

} // verus!

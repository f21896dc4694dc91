use vstd::prelude::*;

use crate::error::PngError;
use crate::text::ascii_to_str;

verus! {

/// Whether a code point is an ASCII digit.
pub open spec fn is_digit_code(c: int) -> bool {
    48 <= c <= 57
}

/// Whether a character may stand in a chunk-type tag: ASCII and no digit.
pub open spec fn ok_type_char(c: char) -> bool {
    (c as int) < 128 && !is_digit_code(c as int)
}

/// Text is acceptable as a chunk-type tag when it is exactly four characters,
/// each ASCII and none an ASCII digit.
pub open spec fn valid_type_text(s: Seq<char>) -> bool {
    &&& s.len() == 4
    &&& forall|i: int| 0 <= i < 4 ==> ok_type_char(#[trigger] s[i])
}

/// Four type bytes and four characters spell the same tag.
pub open spec fn type_text_matches(ty: Seq<u8>, s: Seq<char>) -> bool {
    &&& ty.len() == 4
    &&& s.len() == 4
    &&& forall|i: int| 0 <= i < 4 ==> (#[trigger] ty[i]) as int == s[i] as int
}

/// A four-byte ASCII tag that classifies a chunk; the case of each byte
/// encodes one property of the chunk.
#[derive(Debug, Clone, Copy)]
pub struct ChunkType {
    tag: [u8; 4],
}

impl View for ChunkType {
    type V = Seq<u8>;

    closed spec fn view(&self) -> Seq<u8> {
        self.tag@
    }
}

impl PartialEq for ChunkType {
    /// Tags are equal when their four bytes are equal.
    fn eq(&self, other: &Self) -> (r: bool) {
        let r = self.tag[0] == other.tag[0] && self.tag[1] == other.tag[1] && self.tag[2]
            == other.tag[2] && self.tag[3] == other.tag[3];
        proof {
            if r {
                assert(self@ =~= other@);
            }
        }
        r
    }
}

impl vstd::std_specs::cmp::PartialEqSpecImpl for ChunkType {
    open spec fn obeys_eq_spec() -> bool {
        true
    }

    open spec fn eq_spec(&self, other: &Self) -> bool {
        self@ == other@
    }
}

impl Eq for ChunkType {

}

impl ChunkType {
    /// The four raw tag bytes.
    pub fn bytes(&self) -> (r: [u8; 4])
        ensures
            r@ == self@,
    {
        self.tag
    }

    /// Builds a tag from four raw bytes without validation; meant for bytes
    /// already drawn from a checksummed stream, which the checksum guards.
    pub fn from_bytes(bytes: [u8; 4]) -> (r: Self)
        ensures
            r@ == bytes@,
    {
        ChunkType { tag: bytes }
    }

    /// Builds a tag from text, rejecting anything but four ASCII characters
    /// with no digit among them.
    pub fn from_str(s: &str) -> (r: Result<Self, PngError>)
        ensures
            r is Ok <==> valid_type_text(s@),
            r is Ok ==> type_text_matches(r->Ok_0@, s@),
            r is Err ==> r->Err_0 == PngError::InvalidTypeText,
    {
        if s.unicode_len() != 4 {
            return Err(PngError::InvalidTypeText);
        }
        let c0 = s.get_char(0) as u32;
        let c1 = s.get_char(1) as u32;
        let c2 = s.get_char(2) as u32;
        let c3 = s.get_char(3) as u32;
        if c0 >= 128 || c1 >= 128 || c2 >= 128 || c3 >= 128 {
            return Err(PngError::InvalidTypeText);
        }
        if (48 <= c0 && c0 <= 57) || (48 <= c1 && c1 <= 57) || (48 <= c2 && c2 <= 57) || (48 <= c3
            && c3 <= 57) {
            return Err(PngError::InvalidTypeText);
        }
        let tag: [u8; 4] = [c0 as u8, c1 as u8, c2 as u8, c3 as u8];
        let r = ChunkType { tag };
        proof {
            assert forall|i: int| 0 <= i < 4 implies (#[trigger] r@[i]) as int == s@[i] as int by {
                assert(r@[0] as int == s@[0] as int);
                assert(r@[1] as int == s@[1] as int);
                assert(r@[2] as int == s@[2] as int);
                assert(r@[3] as int == s@[3] as int);
            }
        }
        Ok(r)
    }

    /// True when every tag byte is ASCII and the reserved-bit byte (position
    /// two) is uppercase; the other case properties are independent queries.
    pub fn is_valid(&self) -> (r: bool)
        ensures
            r == (self.spec_is_ascii() && self.spec_is_reserved_bit_valid()),
    {
        let b0 = self.tag[0];
        let b1 = self.tag[1];
        let b2 = self.tag[2];
        let b3 = self.tag[3];
        b0 < 128 && b1 < 128 && b2 < 128 && b3 < 128 && self.is_reserved_bit_valid()
    }

    /// Whether every tag byte is ASCII.
    pub open spec fn spec_is_ascii(&self) -> bool {
        forall|i: int| 0 <= i < 4 ==> (#[trigger] self@[i]) < 128
    }

    /// A chunk is critical when the first tag byte is uppercase.
    pub open spec fn spec_is_critical(&self) -> bool {
        65 <= self@[0] <= 90
    }

    /// A chunk is public when the second tag byte is uppercase.
    pub open spec fn spec_is_public(&self) -> bool {
        65 <= self@[1] <= 90
    }

    /// The reserved bit is valid when the third tag byte is uppercase.
    pub open spec fn spec_is_reserved_bit_valid(&self) -> bool {
        65 <= self@[2] <= 90
    }

    /// A chunk is safe to copy when the fourth tag byte is lowercase.
    pub open spec fn spec_is_safe_to_copy(&self) -> bool {
        97 <= self@[3] <= 122
    }

    /// Whether the first tag byte marks the chunk critical.
    pub fn is_critical(&self) -> (r: bool)
        ensures
            r == self.spec_is_critical(),
    {
        let b = self.tag[0];
        65 <= b && b <= 90
    }

    /// Whether the second tag byte marks the chunk public.
    pub fn is_public(&self) -> (r: bool)
        ensures
            r == self.spec_is_public(),
    {
        let b = self.tag[1];
        65 <= b && b <= 90
    }

    /// Whether the third tag byte leaves the reserved bit valid.
    pub fn is_reserved_bit_valid(&self) -> (r: bool)
        ensures
            r == self.spec_is_reserved_bit_valid(),
    {
        let b = self.tag[2];
        65 <= b && b <= 90
    }

    /// Whether the fourth tag byte marks the chunk safe to copy.
    pub fn is_safe_to_copy(&self) -> (r: bool)
        ensures
            r == self.spec_is_safe_to_copy(),
    {
        let b = self.tag[3];
        97 <= b && b <= 122
    }

    /// Whether the given text spells this tag, character for character.
    pub fn matches_text(&self, t: &str) -> (r: bool)
        ensures
            r == type_text_matches(self@, t@),
    {
        if t.unicode_len() != 4 {
            return false;
        }
        let r = (t.get_char(0) as u32 == self.tag[0] as u32) && (t.get_char(1) as u32
            == self.tag[1] as u32) && (t.get_char(2) as u32 == self.tag[2] as u32) && (t.get_char(
            3,
        ) as u32 == self.tag[3] as u32);
        proof {
            if r {
                assert forall|i: int| 0 <= i < 4 implies (#[trigger] self@[i]) as int
                    == t@[i] as int by {
                    assert(self@[0] as int == t@[0] as int);
                    assert(self@[1] as int == t@[1] as int);
                    assert(self@[2] as int == t@[2] as int);
                    assert(self@[3] as int == t@[3] as int);
                }
            }
        }
        r
    }

    /// The tag as text, one character per byte; defined for ASCII tags only.
    pub fn to_string(&self) -> (r: String)
        requires
            self.spec_is_ascii(),
        ensures
            type_text_matches(self@, r@),
    {
        let s = ascii_to_str(self.tag.as_slice());
        s.to_owned()
    }
}

} // verus!

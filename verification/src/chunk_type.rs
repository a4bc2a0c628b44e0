use crate::error::Error;
use crate::text::{bytes_to_str, str_eq};
use std::str::FromStr;
use vstd::prelude::*;
use vstd::std_specs::cmp::PartialEqSpecImpl;
use vstd::std_specs::convert::TryFromSpecImpl;
use vstd::string::StringSliceAdditionalSpecFns;
use vstd::utf8::{decode_utf8, valid_utf8};

verus! {

/// Whether `b` is one of `A` to `Z`.
pub open spec fn is_ascii_uppercase(b: u8) -> bool {
    65 <= b <= 90
}

/// Whether `b` is one of `a` to `z`.
pub open spec fn is_ascii_lowercase(b: u8) -> bool {
    97 <= b <= 122
}

/// Whether `b` is an ASCII letter.
pub open spec fn is_ascii_alphabetic(b: u8) -> bool {
    is_ascii_uppercase(b) || is_ascii_lowercase(b)
}

/// The bit of a byte that tells an upper-case letter (0) from a lower-case
/// one (1): the bit of value 32.
pub open spec fn case_bit(b: u8) -> u8 {
    (b >> 5) & 1
}

/// Whether `t` can be given as a textual key: four bytes, each an ASCII letter.
pub open spec fn is_type_key(t: Seq<u8>) -> bool {
    &&& t.len() == 4
    &&& forall|i: int| 0 <= i < 4 ==> is_ascii_alphabetic(#[trigger] t[i])
}

/// The chunk is needed to show the image: the case bit of byte 0 is clear.
pub open spec fn type_is_critical(t: Seq<u8>) -> bool {
    case_bit(t[0]) == 0
}

/// The chunk type is publicly registered: the case bit of byte 1 is clear.
pub open spec fn type_is_public(t: Seq<u8>) -> bool {
    case_bit(t[1]) == 0
}

/// The reserved bit has the value the PNG standard asks for: the case bit of
/// byte 2 is clear.
pub open spec fn type_is_reserved_bit_valid(t: Seq<u8>) -> bool {
    case_bit(t[2]) == 0
}

/// An editor that does not know the chunk may copy it: the case bit of
/// byte 3 is set.
pub open spec fn type_is_safe_to_copy(t: Seq<u8>) -> bool {
    case_bit(t[3]) == 1
}

/// The rule a type has to meet to be accepted when a chunk is decoded.
///
/// Bytes 0, 1 and 3 must carry their property in the way letters do: byte 0
/// is an upper-case letter exactly if the type is critical, byte 1 is one
/// exactly if it is public, byte 3 is a lower-case letter exactly if it is
/// safe to copy. The reserved bit of byte 2 is left free on purpose, so a
/// type is accepted whatever the case of its third byte.
pub open spec fn type_is_valid(t: Seq<u8>) -> bool {
    &&& is_ascii_uppercase(t[0]) == type_is_critical(t)
    &&& is_ascii_uppercase(t[1]) == type_is_public(t)
    &&& is_ascii_lowercase(t[3]) == type_is_safe_to_copy(t)
}

/// The text a type is shown as: its four bytes read as UTF-8, or a fixed
/// placeholder where they are not UTF-8.
pub open spec fn type_text(t: Seq<u8>) -> Seq<char> {
    if valid_utf8(t) {
        decode_utf8(t)
    } else {
        "unknown chunk type"@
    }
}

/// For a letter, the case bit and the case say the same.
pub proof fn lemma_case_bit_of_letter(b: u8)
    requires
        is_ascii_alphabetic(b),
    ensures
        is_ascii_uppercase(b) <==> case_bit(b) == 0,
        is_ascii_lowercase(b) <==> case_bit(b) == 1,
{
    assert(65 <= b <= 90 ==> (b >> 5) & 1 == 0) by (bit_vector);
    assert(97 <= b <= 122 ==> (b >> 5) & 1 == 1) by (bit_vector);
}

/// Every type that can be given as a textual key is accepted when a chunk is
/// decoded.
pub proof fn lemma_type_key_is_valid(t: Seq<u8>)
    requires
        is_type_key(t),
    ensures
        type_is_valid(t),
{
    lemma_case_bit_of_letter(t[0]);
    lemma_case_bit_of_letter(t[1]);
    lemma_case_bit_of_letter(t[3]);
}

/// The case bit of `by`, as 0 or 1.
pub fn five_bit(by: u8) -> (bit: u8)
    ensures
        bit == case_bit(by),
        bit == 0 || bit == 1,
{
    assert((by >> 5) & 1 == 0 || (by >> 5) & 1 == 1) by (bit_vector);
    (by >> 5) & 1
}

fn is_upper(b: u8) -> (r: bool)
    ensures
        r == is_ascii_uppercase(b),
{
    65 <= b && b <= 90
}

fn is_lower(b: u8) -> (r: bool)
    ensures
        r == is_ascii_lowercase(b),
{
    97 <= b && b <= 122
}

/// The four-byte type key of a chunk. Its view is the sequence of its bytes;
/// two types are equal exactly if their bytes are.
#[derive(Debug, Clone, Copy, Eq)]
pub struct ChunkType {
    bits: [u8; 4],
}

impl View for ChunkType {
    type V = Seq<u8>;

    open spec fn view(&self) -> Seq<u8> {
        self.spec_bytes()@
    }
}

impl PartialEq for ChunkType {
    fn eq(&self, other: &Self) -> (r: bool) {
        let r = self.bits[0] == other.bits[0] && self.bits[1] == other.bits[1] && self.bits[2]
            == other.bits[2] && self.bits[3] == other.bits[3];
        proof {
            if r {
                assert(self.bits@ =~= other.bits@);
            }
        }
        r
    }
}

impl PartialEqSpecImpl for ChunkType {
    open spec fn obeys_eq_spec() -> bool {
        true
    }

    open spec fn eq_spec(&self, other: &Self) -> bool {
        self@ == other@
    }
}

impl TryFrom<[u8; 4]> for ChunkType {
    type Error = Error;

    /// Takes any four bytes as a type. Never fails, and does not ask the
    /// bytes to be letters.
    fn try_from(value: [u8; 4]) -> (r: Result<Self, Error>)
        ensures
            r is Ok,
            r->Ok_0@ == value@,
    {
        Ok(ChunkType { bits: value })
    }
}

impl TryFromSpecImpl<[u8; 4]> for ChunkType {
    open spec fn obeys_try_from_spec() -> bool {
        true
    }

    closed spec fn try_from_spec(v: [u8; 4]) -> Result<Self, Error> {
        Ok(ChunkType { bits: v })
    }
}

impl FromStr for ChunkType {
    type Err = Error;

    /// Reads a type from a textual key. The key must consist of four ASCII
    /// letters; any other text is refused with `InvalidChunkType`.
    fn from_str(s: &str) -> (r: Result<Self, Error>)
        ensures
            match r {
                Ok(t) => is_type_key(s.spec_bytes()) && t@ == s.spec_bytes(),
                Err(e) => !is_type_key(s.spec_bytes()) && e == Error::InvalidChunkType,
            },
    {
        let b = s.as_bytes();
        if b.len() != 4 {
            return Err(Error::InvalidChunkType);
        }
        let mut i: usize = 0;
        while i < 4
            invariant
                i <= 4,
                b@ == s.spec_bytes(),
                b@.len() == 4,
                forall|j: int| 0 <= j < i ==> is_ascii_alphabetic(#[trigger] b@[j]),
            decreases 4 - i,
        {
            if !(is_upper(b[i]) || is_lower(b[i])) {
                return Err(Error::InvalidChunkType);
            }
            i += 1;
        }
        let bits = [b[0], b[1], b[2], b[3]];
        assert(bits@ =~= b@);
        Ok(ChunkType { bits })
    }
}

impl ChunkType {
    /// The four raw bytes, for use in contracts.
    pub closed spec fn spec_bytes(&self) -> [u8; 4] {
        self.bits
    }

    /// The four raw bytes.
    #[verifier::when_used_as_spec(spec_bytes)]
    pub fn bytes(&self) -> (b: [u8; 4])
        ensures
            b == self.spec_bytes(),
            b@ == self@,
    {
        self.bits
    }

    /// Whether the type meets the rule for decoded chunks, see `type_is_valid`.
    pub fn is_valid(&self) -> (valid: bool)
        ensures
            valid == type_is_valid(self@),
    {
        let critical_valid = is_upper(self.bits[0]) == self.is_critical();
        let public_valid = is_upper(self.bits[1]) == self.is_public();
        let safe_to_copy_valid = is_lower(self.bits[3]) == self.is_safe_to_copy();
        critical_valid && public_valid && safe_to_copy_valid
    }

    pub fn is_critical(&self) -> (r: bool)
        ensures
            r == type_is_critical(self@),
    {
        five_bit(self.bits[0]) == 0
    }

    pub fn is_public(&self) -> (r: bool)
        ensures
            r == type_is_public(self@),
    {
        five_bit(self.bits[1]) == 0
    }

    pub fn is_reserved_bit_valid(&self) -> (r: bool)
        ensures
            r == type_is_reserved_bit_valid(self@),
    {
        five_bit(self.bits[2]) == 0
    }

    pub fn is_safe_to_copy(&self) -> (r: bool)
        ensures
            r == type_is_safe_to_copy(self@),
    {
        five_bit(self.bits[3]) == 1
    }

    /// The type as text, see `type_text`.
    pub fn to_string(&self) -> (s: String)
        ensures
            s@ == type_text(self@),
    {
        match bytes_to_str(self.bits.as_slice()) {
            Some(text) => text.to_owned(),
            None => "unknown chunk type".to_owned(),
        }
    }

    /// Whether the type, shown as text, reads `key`.
    pub fn has_text(&self, key: &str) -> (same: bool)
        ensures
            same == (type_text(self@) == key@),
    {
        match bytes_to_str(self.bits.as_slice()) {
            Some(text) => str_eq(text, key),
            None => str_eq("unknown chunk type", key),
        }
    }

    /// Two types with the same bytes are the same type.
    pub proof fn lemma_view_is_injective(self, other: ChunkType)
        requires
            self@ == other@,
        ensures
            self == other,
    {
        assert(self.bits =~= other.bits);
    }
}

} // verus!

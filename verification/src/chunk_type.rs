//! Validated 4-byte PNG chunk type tags and their bit-position predicates.

use vstd::prelude::*;

use crate::err::{PngErr, PngRes};

verus! {

/// True for ASCII letters, the only bytes a chunk type may hold.
pub open spec fn is_letter(b: u8) -> bool {
    (65 <= b <= 90) || (97 <= b <= 122)
}

/// True when `b` is an uppercase ASCII letter (bit 5 clear).
pub open spec fn is_upper(b: u8) -> bool {
    65 <= b <= 90
}

/// True when `b` is a lowercase ASCII letter (bit 5 set).
pub open spec fn is_lower(b: u8) -> bool {
    97 <= b <= 122
}

/// True when every byte of `s` is an ASCII letter.
pub open spec fn all_letters(s: Seq<u8>) -> bool {
    forall|i: int| 0 <= i < s.len() ==> is_letter(#[trigger] s[i])
}

/// A 4-byte chunk type tag; each byte is an ASCII letter once validated.
#[derive(Debug, Clone, Copy)]
pub struct ChunkType {
    pub bytes: [u8; 4],
}

impl PartialEq for ChunkType {
    fn eq(&self, rhs: &Self) -> (r: bool) {
        let r = self.bytes[0] == rhs.bytes[0] && self.bytes[1] == rhs.bytes[1] && self.bytes[2]
            == rhs.bytes[2] && self.bytes[3] == rhs.bytes[3];
        proof {
            if r {
                assert(self.bytes@ =~= rhs.bytes@);
            }
        }
        r
    }
}

impl vstd::std_specs::cmp::PartialEqSpecImpl for ChunkType {
    open spec fn obeys_eq_spec() -> bool {
        true
    }

    open spec fn eq_spec(&self, rhs: &Self) -> bool {
        self.bytes@ == rhs.bytes@
    }
}

impl Eq for ChunkType {}

impl core::str::FromStr for ChunkType {
    type Err = PngErr;

    fn from_str(chunk_str: &str) -> Result<Self, Self::Err> {
        Self::from_bytes(chunk_str.as_bytes())
    }
}

impl ChunkType {
    /// The validity invariant: all four bytes are ASCII letters.
    pub open spec fn wf(&self) -> bool {
        all_letters(self.bytes@)
    }

    /// The four raw bytes of the tag.
    pub fn bytes(&self) -> (r: [u8; 4])
        ensures
            r == self.bytes,
    {
        self.bytes
    }

    /// A chunk is critical when byte 0 is uppercase.
    pub fn is_critical(&self) -> (r: bool)
        ensures
            r == is_upper(self.bytes@[0]),
    {
        65 <= self.bytes[0] && self.bytes[0] <= 90
    }

    /// A chunk is public when byte 1 is uppercase.
    pub fn is_public(&self) -> (r: bool)
        ensures
            r == is_upper(self.bytes@[1]),
    {
        65 <= self.bytes[1] && self.bytes[1] <= 90
    }

    /// A chunk is safe to copy when byte 3 is lowercase.
    pub fn is_safe_to_copy(&self) -> (r: bool)
        ensures
            r == is_lower(self.bytes@[3]),
    {
        97 <= self.bytes[3] && self.bytes[3] <= 122
    }

    /// The reserved bit is valid when byte 2 is uppercase.
    pub fn is_reserved_bit_valid(&self) -> (r: bool)
        ensures
            r == is_upper(self.bytes@[2]),
    {
        65 <= self.bytes[2] && self.bytes[2] <= 90
    }

    /// A tag is valid when all bytes are letters and the reserved bit is valid.
    pub fn is_valid(&self) -> (r: bool)
        ensures
            r == (self.wf() && is_upper(self.bytes@[2])),
    {
        let mut i: usize = 0;
        let mut ok = true;
        while i < 4
            invariant
                i <= 4,
                ok == forall|j: int| 0 <= j < i ==> is_letter(#[trigger] self.bytes@[j]),
            decreases 4 - i,
        {
            let b = self.bytes[i];
            if !(65 <= b && b <= 90 || 97 <= b && b <= 122) {
                ok = false;
            }
            i += 1;
        }
        ok && self.is_reserved_bit_valid()
    }

    /// Validates four raw bytes as a chunk type tag.
    ///
    /// Fails with `InvalidSegment` unless exactly four bytes are given, and
    /// with `InvalidByte` unless every byte is an ASCII letter.
    pub fn from_bytes(bytes: &[u8]) -> (r: Result<Self, PngErr>)
        ensures
            match r {
                Ok(t) => bytes@.len() == 4 && t.bytes@ == bytes@ && t.wf(),
                Err(e) => {
                    if bytes@.len() != 4 {
                        e == PngErr::InvalidSegment
                    } else {
                        e == PngErr::InvalidByte && !all_letters(bytes@)
                    }
                },
            },
    {
        if bytes.len() != 4 {
            return Err(PngErr::InvalidSegment);
        }
        let mut i: usize = 0;
        while i < 4
            invariant
                i <= 4,
                bytes@.len() == 4,
                forall|j: int| 0 <= j < i ==> is_letter(#[trigger] bytes@[j]),
            decreases 4 - i,
        {
            let b = bytes[i];
            if !(65 <= b && b <= 90 || 97 <= b && b <= 122) {
                return Err(PngErr::InvalidByte);
            }
            i += 1;
        }
        let t = ChunkType { bytes: [bytes[0], bytes[1], bytes[2], bytes[3]] };
        proof {
            assert(t.bytes@ =~= bytes@);
        }
        Ok(t)
    }

    /// The tag as a 4-character string (validated tags hold only ASCII
    /// letters).
    pub fn to_string(&self) -> (r: String)
        ensures
            r@ == crate::text::tag_chars(self.bytes@),
    {
        let mut s = String::new();
        crate::text::string_push(&mut s, self.bytes[0] as char);
        crate::text::string_push(&mut s, self.bytes[1] as char);
        crate::text::string_push(&mut s, self.bytes[2] as char);
        crate::text::string_push(&mut s, self.bytes[3] as char);
        proof {
            assert(s@ =~= crate::text::tag_chars(self.bytes@));
        }
        s
    }

    /// Policy check for an application-defined chunk: it must be ancillary,
    /// private, and have a valid reserved bit, in that priority order.
    pub fn checked_me_type(&self) -> (r: Result<&Self, PngErr>)
        ensures
            match r {
                Ok(t) => t == self && !is_upper(self.bytes@[0]) && !is_upper(self.bytes@[1])
                    && is_upper(self.bytes@[2]),
                Err(e) => {
                    if is_upper(self.bytes@[0]) {
                        e == PngErr::ExpectNonCritical
                    } else if is_upper(self.bytes@[1]) {
                        e == PngErr::ExpectPrivate
                    } else {
                        e == PngErr::ExpectReservedBit && !is_upper(self.bytes@[2])
                    }
                },
            },
    {
        if self.is_critical() {
            Err(PngErr::ExpectNonCritical)
        } else if self.is_public() {
            Err(PngErr::ExpectPrivate)
        } else if !self.is_reserved_bit_valid() {
            Err(PngErr::ExpectReservedBit)
        } else {
            Ok(self)
        }
    }
}

} // verus!

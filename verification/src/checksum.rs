//! The CRC-32 integrity check that guards every chunk, delegated to the
//! `crc` crate.

use vstd::prelude::*;

verus! {

/// The CRC-32/ISO-HDLC (IEEE) checksum of a byte sequence. The checksum is a
/// pure function of the bytes; its definition is left to the `crc` crate.
pub uninterp spec fn crc32_of(bytes: Seq<u8>) -> u32;

/// Relies on `crc::Crc::<u32>::checksum` with the `CRC_32_ISO_HDLC` algorithm:
/// the IEEE CRC-32 used by PNG, a function of the input bytes alone.
#[verifier::external_body]
pub fn crc32(bytes: &[u8]) -> (r: u32)
    ensures
        r == crc32_of(bytes@),
{
    crc::Crc::<u32>::new(&crc::CRC_32_ISO_HDLC).checksum(bytes)
}

} // verus!

//! Error taxonomy of the library: malformed input, policy violations and
//! resource failures are all surfaced as typed results.

use vstd::prelude::*;

verus! {

pub type PngRes<T = ()> = Result<T, PngErr>;

#[derive(Debug, Clone, Copy, PartialEq, Eq, Structural)]
pub enum PngErr {
    DivisionByZero,
    IntOverflow,
    InvalidHeader,
    InvalidByte,
    InvalidIHDR,
    IHDRWidthOverflow,
    IHDRHeightOverflow,
    InvalidSegment,
    ShortChunk,
    LengthMismatch,
    WidthMismatch,
    ZeroWidth,
    CRCMismatch,
    NotUTF8,
    ExpectNonCritical,
    ExpectReservedBit,
    ExpectPrivate,
    ChunkNotFound,
    FileNotFound,
    FileNotRead,
    FileNotWritten,
    DataLengthMismatch,
    CompressError,
    DecompressError,
}

impl PngErr {
    /// Fails with `err` when `cond` holds, succeeds otherwise.
    pub fn not_or(cond: bool, err: PngErr) -> (r: PngRes)
        ensures
            r == if cond { PngRes::<()>::Err(err) } else { PngRes::<()>::Ok(()) },
    {
        if cond {
            Err(err)
        } else {
            Ok(())
        }
    }

    /// Succeeds when `cond` holds, fails with `err` otherwise.
    pub fn is_or(cond: bool, err: PngErr) -> (r: PngRes)
        ensures
            r == if cond { PngRes::<()>::Ok(()) } else { PngRes::<()>::Err(err) },
    {
        if cond {
            Ok(())
        } else {
            Err(err)
        }
    }
}

} // verus!

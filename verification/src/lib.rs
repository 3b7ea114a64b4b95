//! A verified PNG chunk codec and canvas engine.
//!
//! The crate parses and serialises the PNG chunk stream (length-prefixed,
//! CRC-suffixed records), validates chunk type tags, keeps an ordered chunk
//! container with type-keyed lookup, and builds pixel payloads through a
//! rectangle-addressed canvas with overflow-safe coordinate arithmetic.

use vstd::prelude::*;

pub mod be;
pub mod checksum;
pub mod chunk;
pub mod chunk_type;
pub mod color;
pub mod commands;
pub mod err;
pub mod img;
pub mod png;
pub mod px;
pub mod slice;
pub mod rect;
pub mod text;
pub mod zlib;

verus! {

/// Hard upper bound on chunk data lengths and canvas coordinates: 2^31.
pub const INT_MAX: u32 = 2147483648;

} // verus!

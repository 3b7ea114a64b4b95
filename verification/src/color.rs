//! Color helpers: packing channel bytes into the `u32` RGBA pixel format.

use vstd::prelude::*;

verus! {

/// The packed RGBA pixel for four channel bytes, red in the top byte.
pub open spec fn spec_rgba(r: u8, g: u8, b: u8, a: u8) -> u32 {
    (r * 0x1000000 + g * 0x10000 + b * 0x100 + a) as u32
}

/// Packs four channel bytes into one RGBA pixel.
pub fn rgba(r: u8, g: u8, b: u8, a: u8) -> (o: u32)
    ensures
        o == spec_rgba(r, g, b, a),
{
    (r as u32) * 0x1000000 + (g as u32) * 0x10000 + (b as u32) * 0x100 + (a as u32)
}

/// Packs three channel bytes into one fully opaque RGBA pixel.
pub fn rgb(r: u8, g: u8, b: u8) -> (o: u32)
    ensures
        o == spec_rgba(r, g, b, 255),
{
    rgba(r, g, b, 255)
}

/// Reads a color written as hex: a value with a nonzero top byte already
/// carries its alpha channel; a bare RGB value gets full opacity.
pub fn hex(val: u32) -> (o: u32)
    ensures
        o == if val >= 0x1000000 {
            val
        } else {
            (val * 0x100 + 0xFF) as u32
        },
{
    if val >= 0x1000000 {
        val
    } else {
        val * 0x100 + 0xFF
    }
}

/// Reads a color written as hex with an explicit alpha channel.
pub fn hexa(val: u32) -> (o: u32)
    ensures
        o == val,
{
    val
}

} // verus!

//! Image-decoding core: overflow-safe pixel-buffer storage, a pluggable
//! decoder capability trait, and a TGA decoder that fills a pixel buffer
//! from raw, uncompressed or run-length-encoded truecolor byte streams.

use vstd::prelude::*;

pub mod bitmap;
pub mod imagedecoderplugin;
pub mod tgaloader;

verus! {

/// A width/height pair, in pixels. Either dimension may be non-positive,
/// in which case the size is "empty" and is rejected before any allocation.
#[derive(Debug, Copy, Clone, PartialEq, Eq, Structural)]
pub struct IntSize {
    pub width: i32,
    pub height: i32,
}

impl IntSize {
    /// A size is empty when either dimension is zero or negative.
    pub fn is_empty(&self) -> (r: bool)
        ensures
            r == (self.width <= 0 || self.height <= 0),
    {
        self.width <= 0 || self.height <= 0
    }
}

/// A packed 32-bit pixel value: alpha, red, green, blue, most to least
/// significant byte.
pub type ARGB = u32;

/// What `Color::from_rgb` packs: opaque alpha, then red, green, blue.
pub open spec fn spec_pack_rgb(r: u8, g: u8, b: u8) -> u32 {
    (0xFF000000 + r * 0x10000 + g * 0x100 + b) as u32
}

/// What `Color::from_rgba` packs: the given alpha, then red, green, blue.
pub open spec fn spec_pack_rgba(r: u8, g: u8, b: u8, a: u8) -> u32 {
    (a * 0x1000000 + r * 0x10000 + g * 0x100 + b) as u32
}

/// A color held as a packed `ARGB` value.
#[derive(Debug, Copy, Clone)]
pub struct Color {
    pub color: ARGB,
}

impl Color {
    /// The fully transparent black color, all bytes zero.
    pub fn new() -> (r: Self)
        ensures
            r.color == 0,
    {
        Self { color: 0 }
    }

    /// Packs an opaque color from its red, green and blue components.
    pub fn from_rgb(r: u8, g: u8, b: u8) -> (c: Self)
        ensures
            c.color == spec_pack_rgb(r, g, b),
    {
        Self { color: 0xFF000000u32 + (r as u32) * 0x10000 + (g as u32) * 0x100 + (b as u32) }
    }

    /// Packs a color from its red, green, blue and alpha components.
    pub fn from_rgba(r: u8, g: u8, b: u8, a: u8) -> (c: Self)
        ensures
            c.color == spec_pack_rgba(r, g, b, a),
    {
        Self {
            color: (a as u32) * 0x1000000 + (r as u32) * 0x10000 + (g as u32) * 0x100 + (b as u32),
        }
    }

    /// Wraps an already packed `ARGB` value.
    pub fn from_argb(color: ARGB) -> (c: Self)
        ensures
            c.color == color,
    {
        Self { color }
    }
}

} // verus!

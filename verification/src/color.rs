//! Colors on the 0..1 scale per channel, stored as fixed-point `Fx` values.

use vstd::prelude::*;
use crate::fixed::{Fx, fx_scale, fx_to_byte_255};

verus! {

/// A color with alpha; every channel lives on the 0..1 scale.
#[derive(Debug, Clone, Copy, PartialEq, Eq, Structural)]
pub struct Rgba {
    pub r: Fx,
    pub g: Fx,
    pub b: Fx,
    pub a: Fx,
}

/// A color without alpha; every channel lives on the 0..1 scale.
#[derive(Debug, Clone, Copy, PartialEq, Eq, Structural)]
pub struct Rgb {
    pub r: Fx,
    pub g: Fx,
    pub b: Fx,
}

/// What a protocol byte denotes on the 0..1 scale: `b / 255`, in raw counts.
pub open spec fn byte_to_unit(b: u8) -> int {
    b * fx_scale() / 255
}

/// A protocol byte read as a 0..1 channel value.
pub fn unit_of_byte(b: u8) -> (r: Fx)
    ensures
        r@ == byte_to_unit(b),
{
    let raw: u64 = (b as u64) * 1_000_000 / 255;
    Fx::from_micros(raw as i64)
}

impl Rgba {
    /// Opaque black.
    pub fn black() -> (r: Rgba)
        ensures
            r.r@ == 0 && r.g@ == 0 && r.b@ == 0,
            r.a@ == fx_scale(),
    {
        Rgba { r: Fx::zero(), g: Fx::zero(), b: Fx::zero(), a: Fx::one() }
    }

    /// An opaque gray: the one value on all three color channels.
    pub fn gray(v: Fx) -> (r: Rgba)
        ensures
            r.r == v && r.g == v && r.b == v,
            r.a@ == fx_scale(),
    {
        Rgba { r: v, g: v, b: v, a: Fx::one() }
    }

    /// An opaque gray from a protocol byte.
    pub fn gray_byte(v: u8) -> (r: Rgba)
        ensures
            r.r@ == byte_to_unit(v) && r.g@ == byte_to_unit(v) && r.b@ == byte_to_unit(v),
            r.a@ == fx_scale(),
    {
        let c = unit_of_byte(v);
        Rgba { r: c, g: c, b: c, a: Fx::one() }
    }

    /// All four channels from protocol bytes.
    pub fn from_bytes(o: [u8; 4]) -> (r: Rgba)
        ensures
            r.r@ == byte_to_unit(o[0]) && r.g@ == byte_to_unit(o[1]),
            r.b@ == byte_to_unit(o[2]) && r.a@ == byte_to_unit(o[3]),
    {
        Rgba {
            r: unit_of_byte(o[0]),
            g: unit_of_byte(o[1]),
            b: unit_of_byte(o[2]),
            a: unit_of_byte(o[3]),
        }
    }

    /// All four channels as protocol bytes: scaled by 255, truncated, clamped.
    pub fn to_bytes(&self) -> (r: [u8; 4])
        ensures
            r[0] == fx_to_byte_255(self.r@) && r[1] == fx_to_byte_255(self.g@),
            r[2] == fx_to_byte_255(self.b@) && r[3] == fx_to_byte_255(self.a@),
    {
        [self.r.to_byte_255(), self.g.to_byte_255(), self.b.to_byte_255(), self.a.to_byte_255()]
    }

    /// Drops the alpha channel.
    pub fn to_rgb(&self) -> (r: Rgb)
        ensures
            r == (Rgb { r: self.r, g: self.g, b: self.b }),
    {
        Rgb { r: self.r, g: self.g, b: self.b }
    }
}

impl Rgb {
    /// Adds a full alpha channel.
    pub fn to_rgba(&self) -> (r: Rgba)
        ensures
            r.r == self.r && r.g == self.g && r.b == self.b,
            r.a@ == fx_scale(),
    {
        Rgba { r: self.r, g: self.g, b: self.b, a: Fx::one() }
    }
}

} // verus!

//! Colors with fixed-point red, green and blue channels.
use vstd::prelude::*;
use crate::fixed::{in_range, sat, saturate, fmul, fx_mul, div_floor, SCALE};

verus! {

/// A color with red, green and blue values. Channels are meant to lie between zero and one
/// (`SCALE`); other values are clamped only when the color is quantized.
#[derive(Debug, Clone, Copy, PartialEq, Eq, Structural)]
pub struct Color(pub i64, pub i64, pub i64);

/// Quantizes one channel: `floor(256 * v)` clamped to `[0, 255]`.
pub open spec fn channel_u8(v: int) -> int {
    let q = 256 * v / SCALE as int;
    if q < 0 {
        0
    } else if q > 255 {
        255
    } else {
        q
    }
}

pub open spec fn csat(r: int, g: int, b: int) -> Color {
    Color(sat(r) as i64, sat(g) as i64, sat(b) as i64)
}

impl Color {
    /// All channels zero.
    pub fn black() -> (r: Color)
        ensures
            r == Color(0, 0, 0),
    {
        Color(0, 0, 0)
    }

    /// All channels one.
    pub fn white() -> (r: Color)
        ensures
            r == Color(SCALE, SCALE, SCALE),
    {
        Color(SCALE, SCALE, SCALE)
    }

    /// Every channel lies in `[-LIMIT, LIMIT]`.
    pub open spec fn wf(self) -> bool {
        in_range(self.0 as int) && in_range(self.1 as int) && in_range(self.2 as int)
    }

    pub open spec fn plus(self, o: Color) -> Color {
        csat(self.0 + o.0, self.1 + o.1, self.2 + o.2)
    }

    /// Every channel multiplied by the scalar `k`.
    pub open spec fn times(self, k: int) -> Color {
        Color(fmul(k, self.0 as int) as i64, fmul(k, self.1 as int) as i64, fmul(k, self.2 as int) as i64)
    }

    /// Converts the red, green, blue values to bytes, mapping the range [0, 1] to [0, 0xff].
    pub fn to_u8(&self) -> (r: (u8, u8, u8))
        ensures
            r.0 == channel_u8(self.0 as int),
            r.1 == channel_u8(self.1 as int),
            r.2 == channel_u8(self.2 as int),
    {
        (to_u8(self.0), to_u8(self.1), to_u8(self.2))
    }

    pub fn add(&self, other: Color) -> (r: Color)
        requires
            self.wf(),
            other.wf(),
        ensures
            r == self.plus(other),
            r.wf(),
    {
        Color(
            saturate(self.0 as i128 + other.0 as i128),
            saturate(self.1 as i128 + other.1 as i128),
            saturate(self.2 as i128 + other.2 as i128),
        )
    }

    /// Multiplies every channel by the scalar `k`.
    pub fn scale(&self, k: i64) -> (r: Color)
        requires
            self.wf(),
            in_range(k as int),
        ensures
            r == self.times(k as int),
            r.wf(),
    {
        Color(fx_mul(k, self.0), fx_mul(k, self.1), fx_mul(k, self.2))
    }
}

/// Quantizes one channel to a byte, mapping the range [0, 1] to [0, 0xff].
pub fn to_u8(v: i64) -> (r: u8)
    ensures
        r == channel_u8(v as int),
{
    let q = div_floor(256 * v as i128, SCALE as i128);
    if q < 0 {
        0
    } else if q > 255 {
        255
    } else {
        q as u8
    }
}

} // verus!

//! The RGBA color value type.
//!
//! Components are fixed-point scalars, nominally in `[0, 1]` but never clamped
//! implicitly. Two pass-through flags mark "use the display's default
//! foreground/background"; every arithmetic operation carries the left
//! operand's flags through unchanged and never mutates them.

use vstd::prelude::*;

use crate::fx::{fx_div_spec, fx_mul_spec, fx_round_spec, fx_within, Fx, FX_ONE, FX_RAW_LIMIT};

verus! {

/// Perceptual weight applied to the red channel by `gamma_corrected`
/// (fixed-point for `1 - 0.3086`).
pub const GAMMA_WEIGHT_R: i64 = 45313;

/// Perceptual weight applied to the green channel by `gamma_corrected`
/// (fixed-point for `1 - 0.6094`).
pub const GAMMA_WEIGHT_G: i64 = 25600;

/// Perceptual weight applied to the blue channel by `gamma_corrected`
/// (fixed-point for `1 - 0.0820`).
pub const GAMMA_WEIGHT_B: i64 = 60162;

/// Raw fixed-point representation of the byte value `b / 255`.
pub open spec fn u8_to_fx_raw(b: int) -> int {
    (b * FX_ONE + 127) / 255
}

/// The byte a scaled-by-255 channel writes into a raster: the value truncated
/// toward zero, saturated into `[0, 255]` (the semantics of a float-to-byte
/// cast).
pub open spec fn chan_byte_spec(raw: int) -> int {
    sat_255(
        if raw >= 0 {
            raw / FX_ONE as int
        } else {
            0
        },
    )
}

/// Clamps `v` into `[0, 255]`.
pub open spec fn sat_255(v: int) -> int {
    if v < 0 {
        0
    } else if v > 255 {
        255
    } else {
        v
    }
}

/// First caps `v` at `hi`, then raises the result to at least `lo` (in that
/// order, so `lo` wins when `lo > hi`).
pub open spec fn cap_then_raise(v: int, lo: int, hi: int) -> int {
    let capped = if v > hi {
        hi
    } else {
        v
    };
    if capped < lo {
        lo
    } else {
        capped
    }
}

/// The failure a color operation can surface: a component divisor was zero.
#[derive(Clone, Copy, PartialEq, Eq, Structural, Debug)]
pub enum ColorError {
    DivisionByZero,
}

/// An RGBA color with fixed-point components and two display-default flags.
#[derive(Clone, Copy, PartialEq, Eq, Structural, Debug)]
pub struct Color {
    pub r: Fx,
    pub g: Fx,
    pub b: Fx,
    pub a: Fx,
    pub fg_default: bool,
    pub bg_default: bool,
}

/// Every component within `bound`, on raw representations.
pub open spec fn color_within(c: Color, bound: int) -> bool {
    fx_within(c.r, bound) && fx_within(c.g, bound) && fx_within(c.b, bound) && fx_within(
        c.a,
        bound,
    )
}

impl Color {
    /// An opaque color from three components.
    pub fn rgb(r: Fx, g: Fx, b: Fx) -> (c: Color)
        ensures
            c == (Color { r, g, b, a: Fx { raw: FX_ONE }, fg_default: false, bg_default: false }),
    {
        Color { r, g, b, a: Fx { raw: FX_ONE }, fg_default: false, bg_default: false }
    }

    /// A color from four components.
    pub fn rgba(r: Fx, g: Fx, b: Fx, a: Fx) -> (c: Color)
        ensures
            c == (Color { r, g, b, a, fg_default: false, bg_default: false }),
    {
        Color { r, g, b, a, fg_default: false, bg_default: false }
    }

    /// An opaque color from three bytes, scaled into `[0, 1]`.
    pub fn rgb_255(r: u8, g: u8, b: u8) -> (c: Color)
        ensures
            c.r.raw == u8_to_fx_raw(r as int),
            c.g.raw == u8_to_fx_raw(g as int),
            c.b.raw == u8_to_fx_raw(b as int),
            c.a.raw == FX_ONE,
            !c.fg_default && !c.bg_default,
    {
        Color {
            r: byte_channel(r),
            g: byte_channel(g),
            b: byte_channel(b),
            a: Fx { raw: FX_ONE },
            fg_default: false,
            bg_default: false,
        }
    }

    /// A color from four bytes, each scaled into `[0, 1]`.
    pub fn rgba_255(r: u8, g: u8, b: u8, a: u8) -> (c: Color)
        ensures
            c.r.raw == u8_to_fx_raw(r as int),
            c.g.raw == u8_to_fx_raw(g as int),
            c.b.raw == u8_to_fx_raw(b as int),
            c.a.raw == u8_to_fx_raw(a as int),
            !c.fg_default && !c.bg_default,
    {
        Color {
            r: byte_channel(r),
            g: byte_channel(g),
            b: byte_channel(b),
            a: byte_channel(a),
            fg_default: false,
            bg_default: false,
        }
    }

    /// Every component scaled by 255 (exactly; no rounding happens here).
    pub fn as_255(&self) -> (c: Color)
        requires
            color_within(*self, 0x1_0000_0000_0000),
        ensures
            c.r.raw == self.r.raw * 255,
            c.g.raw == self.g.raw * 255,
            c.b.raw == self.b.raw * 255,
            c.a.raw == self.a.raw * 255,
            c.fg_default == self.fg_default && c.bg_default == self.bg_default,
    {
        Color {
            r: Fx { raw: self.r.raw * 255 },
            g: Fx { raw: self.g.raw * 255 },
            b: Fx { raw: self.b.raw * 255 },
            a: Fx { raw: self.a.raw * 255 },
            fg_default: self.fg_default,
            bg_default: self.bg_default,
        }
    }

    /// Clamps the `r`, `g`, `b` components into `[min_val, max_val]`, capping
    /// at the maximum before raising to the minimum; `a` and the flags are
    /// untouched.
    pub fn clamp(&mut self, min_val: Fx, max_val: Fx)
        ensures
            final(self).r.raw == cap_then_raise(old(self).r.raw as int, min_val.raw as int, max_val.raw as int),
            final(self).g.raw == cap_then_raise(old(self).g.raw as int, min_val.raw as int, max_val.raw as int),
            final(self).b.raw == cap_then_raise(old(self).b.raw as int, min_val.raw as int, max_val.raw as int),
            final(self).a == old(self).a,
            final(self).fg_default == old(self).fg_default,
            final(self).bg_default == old(self).bg_default,
    {
        if self.r.raw > max_val.raw {
            self.r = max_val;
        }
        if self.g.raw > max_val.raw {
            self.g = max_val;
        }
        if self.b.raw > max_val.raw {
            self.b = max_val;
        }
        if self.r.raw < min_val.raw {
            self.r = min_val;
        }
        if self.g.raw < min_val.raw {
            self.g = min_val;
        }
        if self.b.raw < min_val.raw {
            self.b = min_val;
        }
    }

    /// Rounds the `r`, `g`, `b` components to whole bytes clamped into
    /// `[min_val, max_val]`, then scales them back into `[0, 1]`; `a` and the
    /// flags are untouched.
    pub fn clamp_u8(&mut self, min_val: u8, max_val: u8)
        requires
            color_within(*old(self), 0x1_0000_0000_0000),
        ensures
            final(self).r.raw == u8_to_fx_raw(
                cap_then_raise(
                    sat_255(fx_round_spec(old(self).r.raw * 255)),
                    min_val as int,
                    max_val as int,
                ),
            ),
            final(self).g.raw == u8_to_fx_raw(
                cap_then_raise(
                    sat_255(fx_round_spec(old(self).g.raw * 255)),
                    min_val as int,
                    max_val as int,
                ),
            ),
            final(self).b.raw == u8_to_fx_raw(
                cap_then_raise(
                    sat_255(fx_round_spec(old(self).b.raw * 255)),
                    min_val as int,
                    max_val as int,
                ),
            ),
            final(self).a == old(self).a,
            final(self).fg_default == old(self).fg_default,
            final(self).bg_default == old(self).bg_default,
    {
        let temp = self.as_255();
        let br = clamp_byte(sat_byte(temp.r.round()), min_val, max_val);
        let bg = clamp_byte(sat_byte(temp.g.round()), min_val, max_val);
        let bb = clamp_byte(sat_byte(temp.b.round()), min_val, max_val);
        self.r = byte_channel(br);
        self.g = byte_channel(bg);
        self.b = byte_channel(bb);
    }

    /// Applies the fixed perceptual weights to `r`, `g`, `b`; `a` and the
    /// flags are untouched.
    pub fn gamma_corrected(&self) -> (c: Color)
        requires
            color_within(*self, FX_RAW_LIMIT as int),
        ensures
            c.r.raw == fx_mul_spec(self.r.raw as int, GAMMA_WEIGHT_R as int),
            c.g.raw == fx_mul_spec(self.g.raw as int, GAMMA_WEIGHT_G as int),
            c.b.raw == fx_mul_spec(self.b.raw as int, GAMMA_WEIGHT_B as int),
            c.a == self.a,
            c.fg_default == self.fg_default && c.bg_default == self.bg_default,
    {
        Color {
            r: self.r.mul(Fx { raw: GAMMA_WEIGHT_R }),
            g: self.g.mul(Fx { raw: GAMMA_WEIGHT_G }),
            b: self.b.mul(Fx { raw: GAMMA_WEIGHT_B }),
            a: self.a,
            fg_default: self.fg_default,
            bg_default: self.bg_default,
        }
    }

    /// Opaque white.
    pub fn white() -> (c: Color)
        ensures
            c.r.raw == FX_ONE && c.g.raw == FX_ONE && c.b.raw == FX_ONE && c.a.raw == FX_ONE,
            !c.fg_default && !c.bg_default,
    {
        Color {
            r: Fx { raw: FX_ONE },
            g: Fx { raw: FX_ONE },
            b: Fx { raw: FX_ONE },
            a: Fx { raw: FX_ONE },
            fg_default: false,
            bg_default: false,
        }
    }

    /// Opaque black.
    pub fn black() -> (c: Color)
        ensures
            c.r.raw == 0 && c.g.raw == 0 && c.b.raw == 0 && c.a.raw == FX_ONE,
            !c.fg_default && !c.bg_default,
    {
        Color {
            r: Fx { raw: 0 },
            g: Fx { raw: 0 },
            b: Fx { raw: 0 },
            a: Fx { raw: FX_ONE },
            fg_default: false,
            bg_default: false,
        }
    }

    /// Componentwise product (all four components); flags from `self`.
    pub fn mul(self, rhs: Color) -> (c: Color)
        requires
            color_within(self, FX_RAW_LIMIT as int),
            color_within(rhs, FX_RAW_LIMIT as int),
        ensures
            c.r.raw == fx_mul_spec(self.r.raw as int, rhs.r.raw as int),
            c.g.raw == fx_mul_spec(self.g.raw as int, rhs.g.raw as int),
            c.b.raw == fx_mul_spec(self.b.raw as int, rhs.b.raw as int),
            c.a.raw == fx_mul_spec(self.a.raw as int, rhs.a.raw as int),
            c.fg_default == self.fg_default && c.bg_default == self.bg_default,
    {
        Color {
            r: self.r.mul(rhs.r),
            g: self.g.mul(rhs.g),
            b: self.b.mul(rhs.b),
            a: self.a.mul(rhs.a),
            fg_default: self.fg_default,
            bg_default: self.bg_default,
        }
    }

    /// Scales `r`, `g`, `b` by a scalar; `a` and the flags are untouched.
    pub fn mul_scalar(self, rhs: Fx) -> (c: Color)
        requires
            color_within(self, FX_RAW_LIMIT as int),
            fx_within(rhs, FX_RAW_LIMIT as int),
        ensures
            c.r.raw == fx_mul_spec(self.r.raw as int, rhs.raw as int),
            c.g.raw == fx_mul_spec(self.g.raw as int, rhs.raw as int),
            c.b.raw == fx_mul_spec(self.b.raw as int, rhs.raw as int),
            c.a == self.a,
            c.fg_default == self.fg_default && c.bg_default == self.bg_default,
    {
        Color {
            r: self.r.mul(rhs),
            g: self.g.mul(rhs),
            b: self.b.mul(rhs),
            a: self.a,
            fg_default: self.fg_default,
            bg_default: self.bg_default,
        }
    }

    /// Componentwise quotient (all four components); flags from `self`.
    /// Fails if any component of `rhs` is zero.
    pub fn div(self, rhs: Color) -> (res: Result<Color, ColorError>)
        requires
            color_within(self, FX_RAW_LIMIT as int),
        ensures
            res is Err <==> (rhs.r.raw == 0 || rhs.g.raw == 0 || rhs.b.raw == 0 || rhs.a.raw == 0),
            res matches Err(e) ==> e == ColorError::DivisionByZero,
            res matches Ok(c) ==> {
                &&& c.r.raw == fx_div_spec(self.r.raw as int, rhs.r.raw as int)
                &&& c.g.raw == fx_div_spec(self.g.raw as int, rhs.g.raw as int)
                &&& c.b.raw == fx_div_spec(self.b.raw as int, rhs.b.raw as int)
                &&& c.a.raw == fx_div_spec(self.a.raw as int, rhs.a.raw as int)
                &&& c.fg_default == self.fg_default && c.bg_default == self.bg_default
            },
    {
        if rhs.r.raw == 0 || rhs.g.raw == 0 || rhs.b.raw == 0 || rhs.a.raw == 0 {
            Err(ColorError::DivisionByZero)
        } else {
            Ok(
                Color {
                    r: self.r.div(rhs.r),
                    g: self.g.div(rhs.g),
                    b: self.b.div(rhs.b),
                    a: self.a.div(rhs.a),
                    fg_default: self.fg_default,
                    bg_default: self.bg_default,
                },
            )
        }
    }

    /// Divides `r`, `g`, `b` by a scalar; `a` and the flags are untouched.
    /// Fails if the scalar is zero.
    pub fn div_scalar(self, rhs: Fx) -> (res: Result<Color, ColorError>)
        requires
            color_within(self, FX_RAW_LIMIT as int),
        ensures
            res is Err <==> rhs.raw == 0,
            res matches Err(e) ==> e == ColorError::DivisionByZero,
            res matches Ok(c) ==> {
                &&& c.r.raw == fx_div_spec(self.r.raw as int, rhs.raw as int)
                &&& c.g.raw == fx_div_spec(self.g.raw as int, rhs.raw as int)
                &&& c.b.raw == fx_div_spec(self.b.raw as int, rhs.raw as int)
                &&& c.a == self.a
                &&& c.fg_default == self.fg_default && c.bg_default == self.bg_default
            },
    {
        if rhs.raw == 0 {
            Err(ColorError::DivisionByZero)
        } else {
            Ok(
                Color {
                    r: self.r.div(rhs),
                    g: self.g.div(rhs),
                    b: self.b.div(rhs),
                    a: self.a,
                    fg_default: self.fg_default,
                    bg_default: self.bg_default,
                },
            )
        }
    }

    /// Componentwise sum (all four components); flags from `self`.
    pub fn add(self, rhs: Color) -> (c: Color)
        requires
            color_within(self, 0x1000_0000_0000_0000),
            color_within(rhs, 0x1000_0000_0000_0000),
        ensures
            c.r.raw == self.r.raw + rhs.r.raw,
            c.g.raw == self.g.raw + rhs.g.raw,
            c.b.raw == self.b.raw + rhs.b.raw,
            c.a.raw == self.a.raw + rhs.a.raw,
            c.fg_default == self.fg_default && c.bg_default == self.bg_default,
    {
        Color {
            r: self.r.add(rhs.r),
            g: self.g.add(rhs.g),
            b: self.b.add(rhs.b),
            a: self.a.add(rhs.a),
            fg_default: self.fg_default,
            bg_default: self.bg_default,
        }
    }

    /// Componentwise difference (all four components); flags from `self`.
    pub fn sub(self, rhs: Color) -> (c: Color)
        requires
            color_within(self, 0x1000_0000_0000_0000),
            color_within(rhs, 0x1000_0000_0000_0000),
        ensures
            c.r.raw == self.r.raw - rhs.r.raw,
            c.g.raw == self.g.raw - rhs.g.raw,
            c.b.raw == self.b.raw - rhs.b.raw,
            c.a.raw == self.a.raw - rhs.a.raw,
            c.fg_default == self.fg_default && c.bg_default == self.bg_default,
    {
        Color {
            r: self.r.sub(rhs.r),
            g: self.g.sub(rhs.g),
            b: self.b.sub(rhs.b),
            a: self.a.sub(rhs.a),
            fg_default: self.fg_default,
            bg_default: self.bg_default,
        }
    }
}

/// The fixed-point scalar holding the byte value `b / 255`.
fn byte_channel(b: u8) -> (f: Fx)
    ensures
        f.raw == u8_to_fx_raw(b as int),
{
    Fx { raw: ((b as i64) * FX_ONE + 127) / 255 }
}

/// The byte a scaled-by-255 channel writes into a raster: the value truncated
/// toward zero, saturated into `[0, 255]` (the semantics of a float-to-byte
/// cast).
pub fn channel_byte(c: Fx) -> (b: u8)
    requires
        -0x4000_0000_0000_0000 <= c.raw <= 0x4000_0000_0000_0000,
    ensures
        b as int == chan_byte_spec(c.raw as int),
{
    if c.raw < 0 {
        0u8
    } else {
        let v: u64 = (c.raw as u64) / (FX_ONE as u64);
        if v > 255 {
            255u8
        } else {
            v as u8
        }
    }
}

/// Saturates a whole number into the byte range (the semantics of a
/// float-to-byte cast after rounding).
fn sat_byte(v: i64) -> (b: u8)
    ensures
        b as int == sat_255(v as int),
{
    if v < 0 {
        0u8
    } else if v > 255 {
        255u8
    } else {
        v as u8
    }
}

/// Clamps a byte into `[min_val, max_val]`, capping at the maximum before
/// raising to the minimum.
fn clamp_byte(v: u8, min_val: u8, max_val: u8) -> (r: u8)
    ensures
        r as int == cap_then_raise(v as int, min_val as int, max_val as int),
{
    let capped = if v > max_val {
        max_val
    } else {
        v
    };
    if capped < min_val {
        min_val
    } else {
        capped
    }
}

} // verus!

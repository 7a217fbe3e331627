//! The scene and its per-frame compositor.
//!
//! A `World` owns the object list, the light, a fixed pitch rotation, a camera
//! offset, the raster size, and a time accumulator that drives the yaw angle.
//! Each tick advances time; each frame is redrawn from scratch: every point
//! sample is rotated (yaw, then pitch), offset by the camera, projected
//! orthographically, culled against the raster bounds, depth-sorted, flat
//! shaded, and written into an RGBA byte buffer, later points overwriting
//! earlier ones on the same pixel (painter's algorithm).
//!
//! Rotations are given by the sine and cosine of their angle as fixed-point
//! scalars; computing those from an angle is the caller's concern.

use vstd::arithmetic::div_mod::{lemma_div_is_ordered, lemma_fundamental_div_mod_converse_div};
use vstd::arithmetic::mul::{lemma_mul_inequality, lemma_mul_upper_bound};
use vstd::multiset::Multiset;
use vstd::prelude::*;

use crate::boxshape::{box_points_spec, BoxShape};
use crate::color::{chan_byte_spec, channel_byte, color_within, Color};
use crate::drawable::{sample_ok, Drawable, SAMPLE_LIMIT};
use crate::fx::{
    fx_mul_spec, fx_round_spec, fx_within, round_half_away, vec3_within, Fx, Vec3, FX_HALF, FX_ONE,
    FX_RAW_LIMIT,
};

verus! {

/// Largest raster width or height a world accepts.
pub const DIM_LIMIT: usize = 8192;

/// Largest raw magnitude accepted for the light direction's components and
/// the light intensity.
pub const LIGHT_LIMIT: i64 = 0x10_0000_0000;

/// The raw fixed-point time step one tick adds to the accumulator.
pub const TIME_STEP: i64 = 2621;

/// A rotation about an axis, given by the sine and cosine of its angle.
#[derive(Clone, Copy, PartialEq, Eq, Structural, Debug)]
pub struct Rotation {
    pub sin: Fx,
    pub cos: Fx,
}

/// Sine and cosine magnitudes never exceed one.
pub open spec fn rotation_wf(r: Rotation) -> bool {
    -FX_ONE <= r.sin.raw <= FX_ONE && -FX_ONE <= r.cos.raw <= FX_ONE
}

impl Rotation {
    /// A rotation from the sine and cosine of its angle.
    pub fn new(sin: Fx, cos: Fx) -> (r: Rotation)
        requires
            -FX_ONE <= sin.raw <= FX_ONE,
            -FX_ONE <= cos.raw <= FX_ONE,
        ensures
            r == (Rotation { sin, cos }),
            rotation_wf(r),
    {
        Rotation { sin, cos }
    }

    /// The rotation by angle zero.
    pub fn zero() -> (r: Rotation)
        ensures
            r.sin.raw == 0,
            r.cos.raw == FX_ONE,
            rotation_wf(r),
    {
        Rotation { sin: Fx { raw: 0 }, cos: Fx { raw: FX_ONE } }
    }
}

/// Rotation about the X axis: `y' = cos*y + sin*z`, `z' = -sin*y + cos*z`.
pub open spec fn rot_x_spec(p: Vec3, r: Rotation) -> Vec3 {
    Vec3 {
        x: p.x,
        y: Fx {
            raw: (fx_mul_spec(r.cos.raw as int, p.y.raw as int) + fx_mul_spec(
                r.sin.raw as int,
                p.z.raw as int,
            )) as i64,
        },
        z: Fx {
            raw: (fx_mul_spec(r.cos.raw as int, p.z.raw as int) - fx_mul_spec(
                r.sin.raw as int,
                p.y.raw as int,
            )) as i64,
        },
    }
}

/// Rotation about the Y axis: `x' = cos*x - sin*z`, `z' = sin*x + cos*z`.
pub open spec fn rot_y_spec(p: Vec3, r: Rotation) -> Vec3 {
    Vec3 {
        x: Fx {
            raw: (fx_mul_spec(r.cos.raw as int, p.x.raw as int) - fx_mul_spec(
                r.sin.raw as int,
                p.z.raw as int,
            )) as i64,
        },
        y: p.y,
        z: Fx {
            raw: (fx_mul_spec(r.sin.raw as int, p.x.raw as int) + fx_mul_spec(
                r.cos.raw as int,
                p.z.raw as int,
            )) as i64,
        },
    }
}

/// Rotation about the Z axis: `x' = cos*x + sin*y`, `y' = -sin*x + cos*y`.
pub open spec fn rot_z_spec(p: Vec3, r: Rotation) -> Vec3 {
    Vec3 {
        x: Fx {
            raw: (fx_mul_spec(r.cos.raw as int, p.x.raw as int) + fx_mul_spec(
                r.sin.raw as int,
                p.y.raw as int,
            )) as i64,
        },
        y: Fx {
            raw: (fx_mul_spec(r.cos.raw as int, p.y.raw as int) - fx_mul_spec(
                r.sin.raw as int,
                p.x.raw as int,
            )) as i64,
        },
        z: p.z,
    }
}

/// Scaling by a factor of magnitude at most one cannot grow a value.
proof fn lemma_fx_mul_unit_bound(c: int, v: int, m: int)
    requires
        -FX_ONE <= c <= FX_ONE,
        0 <= m,
        -m <= v <= m,
    ensures
        -m <= fx_mul_spec(c, v) <= m,
{
    lemma_mul_upper_bound(if c >= 0 { c } else { -c }, FX_ONE as int, if v >= 0 { v } else { -v }, m);
    assert(-(FX_ONE * m) <= c * v <= FX_ONE * m) by (nonlinear_arith)
        requires
            -FX_ONE <= c <= FX_ONE,
            -m <= v <= m,
            0 <= m,
    ;
    if c * v >= 0 {
        lemma_div_is_ordered(c * v + FX_ONE / 2, FX_ONE * m + FX_ONE / 2, FX_ONE as int);
        lemma_fundamental_div_mod_converse_div(
            FX_ONE * m + FX_ONE / 2,
            FX_ONE as int,
            m,
            FX_ONE as int / 2,
        );
        vstd::arithmetic::div_mod::lemma_div_pos_is_pos(c * v + FX_ONE / 2, FX_ONE as int);
    } else {
        lemma_div_is_ordered(-(c * v) + FX_ONE / 2, FX_ONE * m + FX_ONE / 2, FX_ONE as int);
        lemma_fundamental_div_mod_converse_div(
            FX_ONE * m + FX_ONE / 2,
            FX_ONE as int,
            m,
            FX_ONE as int / 2,
        );
        vstd::arithmetic::div_mod::lemma_div_pos_is_pos(-(c * v) + FX_ONE / 2, FX_ONE as int);
    }
}

/// A rotation cannot move a componentwise bound past twice its value.
pub proof fn lemma_rot_x_bound(p: Vec3, r: Rotation, m: int)
    requires
        rotation_wf(r),
        0 <= m,
        vec3_within(p, m),
    ensures
        vec3_within(rot_x_spec(p, r), 2 * m),
{
    lemma_fx_mul_unit_bound(r.cos.raw as int, p.y.raw as int, m);
    lemma_fx_mul_unit_bound(r.sin.raw as int, p.z.raw as int, m);
    lemma_fx_mul_unit_bound(r.cos.raw as int, p.z.raw as int, m);
    lemma_fx_mul_unit_bound(r.sin.raw as int, p.y.raw as int, m);
}

/// A rotation cannot move a componentwise bound past twice its value.
pub proof fn lemma_rot_y_bound(p: Vec3, r: Rotation, m: int)
    requires
        rotation_wf(r),
        0 <= m,
        vec3_within(p, m),
    ensures
        vec3_within(rot_y_spec(p, r), 2 * m),
{
    lemma_fx_mul_unit_bound(r.cos.raw as int, p.x.raw as int, m);
    lemma_fx_mul_unit_bound(r.sin.raw as int, p.z.raw as int, m);
    lemma_fx_mul_unit_bound(r.cos.raw as int, p.z.raw as int, m);
    lemma_fx_mul_unit_bound(r.sin.raw as int, p.x.raw as int, m);
}

/// Rounding an exact value is exact: scaling by one gives the value back, and
/// scaling by zero gives zero.
proof fn lemma_fx_mul_exact(v: int)
    ensures
        fx_mul_spec(FX_ONE as int, v) == v,
        fx_mul_spec(0, v) == 0,
        fx_mul_spec(-FX_ONE as int, v) == -v,
{
    if v >= 0 {
        lemma_fundamental_div_mod_converse_div(
            FX_ONE * v + FX_ONE / 2,
            FX_ONE as int,
            v,
            FX_ONE as int / 2,
        );
    } else {
        lemma_fundamental_div_mod_converse_div(
            -(FX_ONE * v) + FX_ONE / 2,
            FX_ONE as int,
            -v,
            FX_ONE as int / 2,
        );
    }
    vstd::arithmetic::div_mod::lemma_basic_div(FX_ONE as int / 2, FX_ONE as int);
    assert(0 * v == 0) by (nonlinear_arith);
    assert((-FX_ONE as int) * v == -(FX_ONE * v)) by (nonlinear_arith);
}

/// Rotating by angle zero about the X axis returns the point unchanged,
/// exactly.
pub proof fn lemma_rot_x_zero(p: Vec3)
    ensures
        rot_x_spec(p, Rotation { sin: Fx { raw: 0 }, cos: Fx { raw: FX_ONE } }) == p,
{
    lemma_fx_mul_exact(p.y.raw as int);
    lemma_fx_mul_exact(p.z.raw as int);
}

/// Rotating by angle zero about the Y axis returns the point unchanged,
/// exactly.
pub proof fn lemma_rot_y_zero(p: Vec3)
    ensures
        rot_y_spec(p, Rotation { sin: Fx { raw: 0 }, cos: Fx { raw: FX_ONE } }) == p,
{
    lemma_fx_mul_exact(p.x.raw as int);
    lemma_fx_mul_exact(p.z.raw as int);
}

/// Rotating by angle zero about the Z axis returns the point unchanged,
/// exactly.
pub proof fn lemma_rot_z_zero(p: Vec3)
    ensures
        rot_z_spec(p, Rotation { sin: Fx { raw: 0 }, cos: Fx { raw: FX_ONE } }) == p,
{
    lemma_fx_mul_exact(p.x.raw as int);
    lemma_fx_mul_exact(p.y.raw as int);
}

/// One fixed-point rounding misrepresents the exact scaled product by at most
/// half a unit.
proof fn lemma_rnd_err(t: int)
    ensures
        -FX_HALF <= round_half_away(t, FX_ONE as int) * FX_ONE - t <= FX_HALF,
{
    if t >= 0 {
        vstd::arithmetic::div_mod::lemma_fundamental_div_mod(t + FX_ONE / 2, FX_ONE as int);
        vstd::arithmetic::div_mod::lemma_mod_bound(t + FX_ONE / 2, FX_ONE as int);
        assert(FX_ONE as int * ((t + FX_ONE / 2) / FX_ONE as int) == ((t + FX_ONE / 2)
            / FX_ONE as int) * FX_ONE) by (nonlinear_arith);
    } else {
        vstd::arithmetic::div_mod::lemma_fundamental_div_mod(-t + FX_ONE / 2, FX_ONE as int);
        vstd::arithmetic::div_mod::lemma_mod_bound(-t + FX_ONE / 2, FX_ONE as int);
        assert(FX_ONE as int * ((-t + FX_ONE / 2) / FX_ONE as int) == ((-t + FX_ONE / 2)
            / FX_ONE as int) * FX_ONE) by (nonlinear_arith);
    }
}

/// The ring identity behind rotating forward and back: unrolling the two
/// rounded rotation steps against the exact products.
proof fn lemma_unroll_forward_back(
    c: int,
    s: int,
    y: int,
    z: int,
    y1: int,
    z1: int,
    y2: int,
    d1: int,
    d2: int,
    d3: int,
    u: int,
)
    requires
        d1 == y1 * u - (c * y + s * z),
        d2 == z1 * u - (c * z - s * y),
        d3 == y2 * u - (c * y1 - s * z1),
    ensures
        (y2 - y) * (u * u) == (s * s + c * c - u * u) * y + c * d1 - s * d2 + d3 * u,
{
    assert(y2 * (u * u) == (y2 * u) * u) by (nonlinear_arith);
    assert((c * y1 - s * z1 + d3) * u == (c * y1) * u - (s * z1) * u + d3 * u) by (nonlinear_arith);
    assert((c * y1) * u == c * (y1 * u)) by (nonlinear_arith);
    assert(c * (c * y + s * z + d1) == (c * c) * y + (c * s) * z + c * d1) by (nonlinear_arith);
    assert((s * z1) * u == s * (z1 * u)) by (nonlinear_arith);
    assert(s * (c * z - s * y + d2) == (c * s) * z - (s * s) * y + s * d2) by (nonlinear_arith);
    assert(y2 * u == c * y1 - s * z1 + d3);
    assert(y1 * u == c * y + s * z + d1);
    assert(z1 * u == c * z - s * y + d2);
    assert(y2 * (u * u) == (c * c) * y + (s * s) * y + c * d1 - s * d2 + d3 * u);
    assert((c * c) * y + (s * s) * y - (u * u) * y == (s * s + c * c - u * u) * y)
        by (nonlinear_arith);
    assert(y * (u * u) == (u * u) * y) by (nonlinear_arith);
    assert((y2 - y) * (u * u) == y2 * (u * u) - y * (u * u)) by (nonlinear_arith);
}

/// The algebra of rotating forward and back: with the same sine and cosine,
/// sign of the sine flipped, each coordinate returns to within the sine/cosine
/// pair's quantization error scaled by the coordinate, plus three rounding
/// units.
proof fn lemma_rot_inverse_combine(
    c: int,
    s: int,
    y: int,
    z: int,
    y1: int,
    z1: int,
    y2: int,
    z2: int,
    e: int,
    m: int,
)
    requires
        0 <= m,
        0 <= e,
        -m <= y <= m,
        -m <= z <= m,
        -e <= s * s + c * c - FX_ONE * FX_ONE <= e,
        -FX_ONE <= y1 * FX_ONE - (c * y + s * z) <= FX_ONE,
        -FX_ONE <= z1 * FX_ONE - (c * z - s * y) <= FX_ONE,
        -FX_ONE <= y2 * FX_ONE - (c * y1 - s * z1) <= FX_ONE,
        -FX_ONE <= z2 * FX_ONE - (c * z1 + s * y1) <= FX_ONE,
        -FX_ONE <= c <= FX_ONE,
        -FX_ONE <= s <= FX_ONE,
    ensures
        -(e * m + 4 * FX_ONE * FX_ONE) <= (y2 - y) * (FX_ONE * FX_ONE) <= e * m + 4 * FX_ONE
            * FX_ONE,
        -(e * m + 4 * FX_ONE * FX_ONE) <= (z2 - z) * (FX_ONE * FX_ONE) <= e * m + 4 * FX_ONE
            * FX_ONE,
{
    let d1 = y1 * FX_ONE - (c * y + s * z);
    let d2 = z1 * FX_ONE - (c * z - s * y);
    let d3 = y2 * FX_ONE - (c * y1 - s * z1);
    let d4 = z2 * FX_ONE - (c * z1 + s * y1);
    lemma_unroll_forward_back(c, s, y, z, y1, z1, y2, d1, d2, d3, FX_ONE as int);
    assert((-s) * y == -(s * y) && (-s) * z == -(s * z) && (-s) * z1 == -(s * z1) && (-s) * y1
        == -(s * y1) && (-s) * (-s) == s * s && (-s) * d1 == -(s * d1)) by (nonlinear_arith);
    lemma_unroll_forward_back(c, -s, z, y, z1, y1, z2, d2, d1, d4, FX_ONE as int);
    assert(-(e * m) <= (s * s + c * c - FX_ONE * FX_ONE) * y <= e * m) by (nonlinear_arith)
        requires
            -e <= s * s + c * c - FX_ONE * FX_ONE <= e,
            -m <= y <= m,
            0 <= e,
            0 <= m,
    ;
    assert(-(e * m) <= (s * s + c * c - FX_ONE * FX_ONE) * z <= e * m) by (nonlinear_arith)
        requires
            -e <= s * s + c * c - FX_ONE * FX_ONE <= e,
            -m <= z <= m,
            0 <= e,
            0 <= m,
    ;
    assert(-(FX_ONE * FX_ONE) <= c * d1 <= FX_ONE * FX_ONE) by (nonlinear_arith)
        requires
            -FX_ONE <= c <= FX_ONE,
            -FX_ONE <= d1 <= FX_ONE,
    ;
    assert(-(FX_ONE * FX_ONE) <= s * d2 <= FX_ONE * FX_ONE) by (nonlinear_arith)
        requires
            -FX_ONE <= s <= FX_ONE,
            -FX_ONE <= d2 <= FX_ONE,
    ;
    assert(-(FX_ONE * FX_ONE) <= c * d2 <= FX_ONE * FX_ONE) by (nonlinear_arith)
        requires
            -FX_ONE <= c <= FX_ONE,
            -FX_ONE <= d2 <= FX_ONE,
    ;
    assert(-(FX_ONE * FX_ONE) <= s * d1 <= FX_ONE * FX_ONE) by (nonlinear_arith)
        requires
            -FX_ONE <= s <= FX_ONE,
            -FX_ONE <= d1 <= FX_ONE,
    ;
    assert(-(FX_ONE * FX_ONE) <= d3 * FX_ONE <= FX_ONE * FX_ONE) by (nonlinear_arith)
        requires
            -FX_ONE <= d3 <= FX_ONE,
    ;
    assert(-(FX_ONE * FX_ONE) <= d4 * FX_ONE <= FX_ONE * FX_ONE) by (nonlinear_arith)
        requires
            -FX_ONE <= d4 <= FX_ONE,
    ;
}

/// Rotating about the X axis and back (the inverse rotation: same cosine,
/// sine negated) returns each coordinate of the point to within a small
/// tolerance: the quantization error `e` of the sine/cosine pair scaled by
/// the coordinate bound, plus four rounding units (all in squared-unit
/// scale); the X coordinate is untouched exactly.
pub proof fn lemma_rot_x_inverse(p: Vec3, r: Rotation, e: int, m: int)
    requires
        rotation_wf(r),
        0 <= m <= SAMPLE_LIMIT,
        vec3_within(p, m),
        0 <= e,
        -e <= r.sin.raw * r.sin.raw + r.cos.raw * r.cos.raw - FX_ONE * FX_ONE <= e,
    ensures
        ({
            let back = Rotation { sin: Fx { raw: (-r.sin.raw) as i64 }, cos: r.cos };
            let q = rot_x_spec(rot_x_spec(p, r), back);
            &&& q.x == p.x
            &&& -(e * m + 4 * FX_ONE * FX_ONE) <= (q.y.raw - p.y.raw) * (FX_ONE * FX_ONE) <= e * m
                + 4 * FX_ONE * FX_ONE
            &&& -(e * m + 4 * FX_ONE * FX_ONE) <= (q.z.raw - p.z.raw) * (FX_ONE * FX_ONE) <= e * m
                + 4 * FX_ONE * FX_ONE
        }),
{
    let c = r.cos.raw as int;
    let s = r.sin.raw as int;
    let y = p.y.raw as int;
    let z = p.z.raw as int;
    lemma_fx_mul_unit_bound(c, y, m);
    lemma_fx_mul_unit_bound(s, z, m);
    lemma_fx_mul_unit_bound(c, z, m);
    lemma_fx_mul_unit_bound(s, y, m);
    let p1 = rot_x_spec(p, r);
    let y1 = p1.y.raw as int;
    let z1 = p1.z.raw as int;
    assert(y1 == fx_mul_spec(c, y) + fx_mul_spec(s, z));
    assert(z1 == fx_mul_spec(c, z) - fx_mul_spec(s, y));
    lemma_rnd_err(c * y);
    lemma_rnd_err(s * z);
    lemma_rnd_err(c * z);
    lemma_rnd_err(s * y);
    assert((fx_mul_spec(c, y) + fx_mul_spec(s, z)) * FX_ONE == fx_mul_spec(c, y) * FX_ONE
        + fx_mul_spec(s, z) * FX_ONE) by (nonlinear_arith);
    assert((fx_mul_spec(c, z) - fx_mul_spec(s, y)) * FX_ONE == fx_mul_spec(c, z) * FX_ONE
        - fx_mul_spec(s, y) * FX_ONE) by (nonlinear_arith);
    let back = Rotation { sin: Fx { raw: (-r.sin.raw) as i64 }, cos: r.cos };
    let q = rot_x_spec(p1, back);
    lemma_fx_mul_unit_bound(c, y1, 2 * m);
    lemma_fx_mul_unit_bound(-s, z1, 2 * m);
    lemma_fx_mul_unit_bound(c, z1, 2 * m);
    lemma_fx_mul_unit_bound(-s, y1, 2 * m);
    let y2 = q.y.raw as int;
    let z2 = q.z.raw as int;
    assert(y2 == fx_mul_spec(c, y1) + fx_mul_spec(-s, z1));
    assert(z2 == fx_mul_spec(c, z1) - fx_mul_spec(-s, y1));
    lemma_rnd_err(c * y1);
    lemma_rnd_err((-s) * z1);
    lemma_rnd_err(c * z1);
    lemma_rnd_err((-s) * y1);
    assert((-s) * z1 == -(s * z1) && (-s) * y1 == -(s * y1)) by (nonlinear_arith);
    assert((fx_mul_spec(c, y1) + fx_mul_spec(-s, z1)) * FX_ONE == fx_mul_spec(c, y1) * FX_ONE
        + fx_mul_spec(-s, z1) * FX_ONE) by (nonlinear_arith);
    assert((fx_mul_spec(c, z1) - fx_mul_spec(-s, y1)) * FX_ONE == fx_mul_spec(c, z1) * FX_ONE
        - fx_mul_spec(-s, y1) * FX_ONE) by (nonlinear_arith);
    lemma_rot_inverse_combine(c, s, y, z, y1, z1, y2, z2, e, m);
}

/// Largest raw magnitude a normal handed to the shading computation may have:
/// a rotated unit normal.
pub const NORMAL_LIMIT: i64 = 0x2_0000;

/// The fixed-point dot product of two vectors (each product rounded).
pub open spec fn dot_spec(a: Vec3, b: Vec3) -> int {
    fx_mul_spec(a.x.raw as int, b.x.raw as int) + fx_mul_spec(a.y.raw as int, b.y.raw as int)
        + fx_mul_spec(a.z.raw as int, b.z.raw as int)
}

/// The flat-shading ratio: the normal's dot product with the light direction,
/// scaled by the intensity, clamped into `[0, 1]`.
pub open spec fn ratio_spec(normal: Vec3, light: Vec3, intensity: int) -> int {
    let r = fx_mul_spec(dot_spec(normal, light), intensity);
    if r > FX_ONE {
        FX_ONE as int
    } else if r < 0 {
        0
    } else {
        r
    }
}

/// Computes the flat-shading ratio of a surface normal under a light. The
/// result is always in `[0, 1]`, whatever the light direction and intensity
/// (negative intensities included): the dot product is clamped.
pub fn shading_ratio(normal: Vec3, light_dir: Vec3, intensity: Fx) -> (r: Fx)
    requires
        vec3_within(normal, NORMAL_LIMIT as int),
        vec3_within(light_dir, LIGHT_LIMIT as int),
        fx_within(intensity, LIGHT_LIMIT as int),
    ensures
        r.raw == ratio_spec(normal, light_dir, intensity.raw as int),
        0 <= r.raw <= FX_ONE,
{
    proof {
        lemma_dot_bound(normal, light_dir);
    }
    let d = normal.x.mul(light_dir.x).add(normal.y.mul(light_dir.y)).add(
        normal.z.mul(light_dir.z),
    );
    let r = d.mul(intensity);
    let capped = if r.raw > FX_ONE {
        Fx { raw: FX_ONE }
    } else {
        r
    };
    if capped.raw < 0 {
        Fx { raw: 0 }
    } else {
        capped
    }
}

/// The dot product of a rotated unit normal with a bounded light direction
/// stays well inside the multiplication limits.
proof fn lemma_dot_bound(normal: Vec3, light: Vec3)
    requires
        vec3_within(normal, NORMAL_LIMIT as int),
        vec3_within(light, LIGHT_LIMIT as int),
    ensures
        -0x60_0000_0003 <= dot_spec(normal, light) <= 0x60_0000_0003,
        -0x20_0000_0001 <= fx_mul_spec(normal.x.raw as int, light.x.raw as int) <= 0x20_0000_0001,
        -0x20_0000_0001 <= fx_mul_spec(normal.y.raw as int, light.y.raw as int) <= 0x20_0000_0001,
        -0x20_0000_0001 <= fx_mul_spec(normal.z.raw as int, light.z.raw as int) <= 0x20_0000_0001,
{
    assert(-(NORMAL_LIMIT as int * LIGHT_LIMIT as int) <= normal.x.raw as int * light.x.raw as int
        <= NORMAL_LIMIT as int * LIGHT_LIMIT as int) by (nonlinear_arith)
        requires
            -NORMAL_LIMIT <= normal.x.raw <= NORMAL_LIMIT,
            -LIGHT_LIMIT <= light.x.raw <= LIGHT_LIMIT,
    ;
    assert(-(NORMAL_LIMIT as int * LIGHT_LIMIT as int) <= normal.y.raw as int * light.y.raw as int
        <= NORMAL_LIMIT as int * LIGHT_LIMIT as int) by (nonlinear_arith)
        requires
            -NORMAL_LIMIT <= normal.y.raw <= NORMAL_LIMIT,
            -LIGHT_LIMIT <= light.y.raw <= LIGHT_LIMIT,
    ;
    assert(-(NORMAL_LIMIT as int * LIGHT_LIMIT as int) <= normal.z.raw as int * light.z.raw as int
        <= NORMAL_LIMIT as int * LIGHT_LIMIT as int) by (nonlinear_arith)
        requires
            -NORMAL_LIMIT <= normal.z.raw <= NORMAL_LIMIT,
            -LIGHT_LIMIT <= light.z.raw <= LIGHT_LIMIT,
    ;
    crate::fx::lemma_round_half_away_bound(
        normal.x.raw as int * light.x.raw as int,
        FX_ONE as int,
        NORMAL_LIMIT as int * LIGHT_LIMIT as int,
    );
    crate::fx::lemma_round_half_away_bound(
        normal.y.raw as int * light.y.raw as int,
        FX_ONE as int,
        NORMAL_LIMIT as int * LIGHT_LIMIT as int,
    );
    crate::fx::lemma_round_half_away_bound(
        normal.z.raw as int * light.z.raw as int,
        FX_ONE as int,
        NORMAL_LIMIT as int * LIGHT_LIMIT as int,
    );
}

/// Whether a projected point lies inside the raster, with one unit of slack
/// at the low edge.
pub open spec fn in_bounds_spec(width: int, height: int, pt: Vec3) -> bool {
    -FX_ONE <= pt.x.raw <= width * FX_ONE && -FX_ONE <= pt.y.raw <= height * FX_ONE
}

/// The scene: objects, light, fixed pitch, camera, raster size, and the time
/// accumulator that drives the yaw angle.
pub struct World {
    pub objects: Vec<BoxShape>,
    pub light_dir: Vec3,
    pub light_intensity: Fx,
    pub rotation_x: Rotation,
    pub camera_pos: Vec3,
    pub width: usize,
    pub height: usize,
    pub time: Fx,
}

impl World {
    /// What the renderer relies on: every object well-formed, every
    /// configuration value within the arithmetic limits.
    pub open spec fn wf(&self) -> bool {
        &&& forall|k: int| 0 <= k < self.objects@.len() ==> (#[trigger] self.objects@[k]).wf()
        &&& vec3_within(self.light_dir, LIGHT_LIMIT as int)
        &&& fx_within(self.light_intensity, LIGHT_LIMIT as int)
        &&& rotation_wf(self.rotation_x)
        &&& vec3_within(self.camera_pos, SAMPLE_LIMIT as int)
        &&& self.width <= DIM_LIMIT
        &&& self.height <= DIM_LIMIT
    }

    /// The demonstration scene: a small red box hovering over a wide gray
    /// slab, lit diagonally, pitched by the given fixed rotation.
    pub fn new(width: usize, height: usize, pitch: Rotation) -> (w: World)
        requires
            width <= DIM_LIMIT,
            height <= DIM_LIMIT,
            rotation_wf(pitch),
        ensures
            w.wf(),
            w.width == width,
            w.height == height,
            w.rotation_x == pitch,
            w.time.raw == 0,
            w.light_intensity.raw == FX_ONE,
            w.light_dir.x.raw == -FX_HALF && w.light_dir.y.raw == -FX_HALF && w.light_dir.z.raw
                == FX_ONE,
            w.camera_pos.x.raw == -150 * FX_ONE && w.camera_pos.y.raw == -100 * FX_ONE
                && w.camera_pos.z.raw == 0,
            w.objects@.len() == 2,
            w.objects@[0].points@ == box_points_spec(
                (Vec3 { x: Fx { raw: 0 }, y: Fx { raw: (-10 * FX_ONE) as i64 }, z: Fx { raw: 0 } }),
                (Vec3 {
                    x: Fx { raw: (10 * FX_ONE) as i64 },
                    y: Fx { raw: (10 * FX_ONE) as i64 },
                    z: Fx { raw: (10 * FX_ONE) as i64 },
                }),
                (Color {
                    r: Fx { raw: FX_ONE },
                    g: Fx { raw: 19661 },
                    b: Fx { raw: 19661 },
                    a: Fx { raw: FX_ONE },
                    fg_default: false,
                    bg_default: false,
                }),
            ),
            w.objects@[1].points@ == box_points_spec(
                (Vec3 { x: Fx { raw: 0 }, y: Fx { raw: 0 }, z: Fx { raw: 0 } }),
                (Vec3 {
                    x: Fx { raw: (500 * FX_ONE) as i64 },
                    y: Fx { raw: FX_ONE },
                    z: Fx { raw: (500 * FX_ONE) as i64 },
                }),
                (Color {
                    r: Fx { raw: 52429 },
                    g: Fx { raw: 52429 },
                    b: Fx { raw: 52429 },
                    a: Fx { raw: FX_ONE },
                    fg_default: false,
                    bg_default: false,
                }),
            ),
    {
        let cube = BoxShape::new(
            Vec3 { x: Fx { raw: 0 }, y: Fx { raw: -10 * FX_ONE }, z: Fx { raw: 0 } },
            Vec3 { x: Fx { raw: 10 * FX_ONE }, y: Fx { raw: 10 * FX_ONE }, z: Fx { raw: 10 * FX_ONE } },
            Color::rgba(Fx { raw: FX_ONE }, Fx { raw: 19661 }, Fx { raw: 19661 }, Fx { raw: FX_ONE }),
        );
        let slab = BoxShape::new(
            Vec3 { x: Fx { raw: 0 }, y: Fx { raw: 0 }, z: Fx { raw: 0 } },
            Vec3 { x: Fx { raw: 500 * FX_ONE }, y: Fx { raw: FX_ONE }, z: Fx { raw: 500 * FX_ONE } },
            Color::rgba(Fx { raw: 52429 }, Fx { raw: 52429 }, Fx { raw: 52429 }, Fx { raw: FX_ONE }),
        );
        let mut objects: Vec<BoxShape> = Vec::new();
        objects.push(cube);
        objects.push(slab);
        World {
            objects,
            light_dir: Vec3 { x: Fx { raw: -FX_HALF }, y: Fx { raw: -FX_HALF }, z: Fx { raw: FX_ONE } },
            light_intensity: Fx { raw: FX_ONE },
            rotation_x: pitch,
            camera_pos: Vec3 {
                x: Fx { raw: -150 * FX_ONE },
                y: Fx { raw: -100 * FX_ONE },
                z: Fx { raw: 0 },
            },
            width,
            height,
            time: Fx { raw: 0 },
        }
    }

    /// Advances the time accumulator by one tick.
    pub fn update(&mut self)
        requires
            old(self).time.raw + TIME_STEP <= i64::MAX,
        ensures
            final(self).time.raw == old(self).time.raw + TIME_STEP,
            final(self).objects == old(self).objects,
            final(self).light_dir == old(self).light_dir,
            final(self).light_intensity == old(self).light_intensity,
            final(self).rotation_x == old(self).rotation_x,
            final(self).camera_pos == old(self).camera_pos,
            final(self).width == old(self).width,
            final(self).height == old(self).height,
    {
        self.time = Fx { raw: self.time.raw + TIME_STEP };
    }

    /// Orthographic projection: the point itself; X and Y are the screen
    /// coordinates, Z is kept only for depth ordering.
    pub fn project(&self, point: Vec3) -> (r: Vec3)
        ensures
            r == point,
    {
        point
    }

    /// Rotates a point about the X axis.
    #[allow(non_snake_case)]
    pub fn rotateX(&self, point: Vec3, rot: Rotation) -> (r: Vec3)
        requires
            rotation_wf(rot),
            vec3_within(point, (FX_RAW_LIMIT / 2) as int),
        ensures
            r == rot_x_spec(point, rot),
            vec3_within(r, FX_RAW_LIMIT as int),
    {
        proof {
            lemma_rot_x_bound(point, rot, (FX_RAW_LIMIT / 2) as int);
            lemma_fx_mul_unit_bound(rot.cos.raw as int, point.y.raw as int, (FX_RAW_LIMIT / 2) as int);
            lemma_fx_mul_unit_bound(rot.sin.raw as int, point.z.raw as int, (FX_RAW_LIMIT / 2) as int);
            lemma_fx_mul_unit_bound(rot.cos.raw as int, point.z.raw as int, (FX_RAW_LIMIT / 2) as int);
            lemma_fx_mul_unit_bound(rot.sin.raw as int, point.y.raw as int, (FX_RAW_LIMIT / 2) as int);
        }
        let y = rot.cos.mul(point.y).add(rot.sin.mul(point.z));
        let z = rot.cos.mul(point.z).sub(rot.sin.mul(point.y));
        Vec3 { x: point.x, y, z }
    }

    /// Rotates a point about the Y axis.
    #[allow(non_snake_case)]
    pub fn rotateY(&self, point: Vec3, rot: Rotation) -> (r: Vec3)
        requires
            rotation_wf(rot),
            vec3_within(point, (FX_RAW_LIMIT / 2) as int),
        ensures
            r == rot_y_spec(point, rot),
            vec3_within(r, FX_RAW_LIMIT as int),
    {
        proof {
            lemma_rot_y_bound(point, rot, (FX_RAW_LIMIT / 2) as int);
            lemma_fx_mul_unit_bound(rot.cos.raw as int, point.x.raw as int, (FX_RAW_LIMIT / 2) as int);
            lemma_fx_mul_unit_bound(rot.sin.raw as int, point.z.raw as int, (FX_RAW_LIMIT / 2) as int);
            lemma_fx_mul_unit_bound(rot.cos.raw as int, point.z.raw as int, (FX_RAW_LIMIT / 2) as int);
            lemma_fx_mul_unit_bound(rot.sin.raw as int, point.x.raw as int, (FX_RAW_LIMIT / 2) as int);
        }
        let x = rot.cos.mul(point.x).sub(rot.sin.mul(point.z));
        let z = rot.sin.mul(point.x).add(rot.cos.mul(point.z));
        Vec3 { x, y: point.y, z }
    }

    /// Rotates a point about the Z axis.
    #[allow(non_snake_case)]
    pub fn rotateZ(&self, point: Vec3, rot: Rotation) -> (r: Vec3)
        requires
            rotation_wf(rot),
            vec3_within(point, (FX_RAW_LIMIT / 2) as int),
        ensures
            r == rot_z_spec(point, rot),
            vec3_within(r, FX_RAW_LIMIT as int),
    {
        proof {
            lemma_fx_mul_unit_bound(rot.cos.raw as int, point.x.raw as int, (FX_RAW_LIMIT / 2) as int);
            lemma_fx_mul_unit_bound(rot.sin.raw as int, point.y.raw as int, (FX_RAW_LIMIT / 2) as int);
            lemma_fx_mul_unit_bound(rot.cos.raw as int, point.y.raw as int, (FX_RAW_LIMIT / 2) as int);
            lemma_fx_mul_unit_bound(rot.sin.raw as int, point.x.raw as int, (FX_RAW_LIMIT / 2) as int);
        }
        let x = rot.cos.mul(point.x).add(rot.sin.mul(point.y));
        let y = rot.cos.mul(point.y).sub(rot.sin.mul(point.x));
        Vec3 { x, y, z: point.z }
    }

    /// Whether a projected point lies inside the raster, with one unit of
    /// slack at the low edge.
    pub fn is_in_bounds(&self, pt: Vec3) -> (r: bool)
        requires
            self.width <= DIM_LIMIT,
            self.height <= DIM_LIMIT,
        ensures
            r == in_bounds_spec(self.width as int, self.height as int, pt),
    {
        (pt.x.raw >= -FX_ONE && pt.x.raw <= (self.width as i64) * FX_ONE) && (pt.y.raw >= -FX_ONE
            && pt.y.raw <= (self.height as i64) * FX_ONE)
    }

    /// The index of a grid cell, or nothing if the coordinates fall outside
    /// the raster.
    pub fn grid_idx(&self, x: i64, y: i64) -> (r: Option<usize>)
        requires
            self.width <= DIM_LIMIT,
            self.height <= DIM_LIMIT,
        ensures
            r is Some <==> (0 <= x < self.width && 0 <= y < self.height),
            r matches Some(i) ==> i == x * 1 + y * self.width,
    {
        if x >= 0 && y >= 0 && x < self.width as i64 && y < self.height as i64 {
            proof {
                lemma_mul_upper_bound(y as int, DIM_LIMIT as int, self.width as int, DIM_LIMIT as int);
            }
            Some((x as usize) + (y as usize) * self.width)
        } else {
            None
        }
    }

    /// The byte index of a pixel's first channel in the RGBA raster, or
    /// nothing if the coordinates fall outside it. An index it returns leaves
    /// room for all four channels.
    pub fn screen_idx(&self, x: i64, y: i64) -> (r: Option<usize>)
        requires
            self.width <= DIM_LIMIT,
            self.height <= DIM_LIMIT,
        ensures
            r is Some <==> (0 <= x < self.width && 0 <= y < self.height),
            r matches Some(i) ==> i == x * 4 + y * self.width * 4 && i + 4 <= self.width
                * self.height * 4,
    {
        if x >= 0 && y >= 0 && x < self.width as i64 && y < self.height as i64 {
            proof {
                lemma_mul_upper_bound(y as int, DIM_LIMIT as int, self.width as int, DIM_LIMIT as int);
                lemma_mul_inequality(y as int, self.height as int - 1, self.width as int);
                assert((self.height as int - 1) * self.width as int + self.width as int
                    == self.width as int * self.height as int) by (nonlinear_arith);
            }
            Some((x as usize) * 4 + (y as usize) * self.width * 4)
        } else {
            None
        }
    }

    /// Redraws the whole frame into `screen`: clears it, transforms and culls
    /// every sample of every object, depth-sorts what is visible, flat-shades
    /// each sample, and writes its color at its pixel, later (deeper) samples
    /// overwriting earlier ones.
    pub fn draw(&self, screen: &mut Vec<u8>, yaw: Rotation)
        requires
            self.wf(),
            rotation_wf(yaw),
            old(screen)@.len() == self.width * self.height * 4,
        ensures
            final(screen)@ == draw_spec(*self, yaw),
    {
        let ghost zeroed = zero_screen(self.width as int, self.height as int);
        let mut i: usize = 0;
        while i < screen.len()
            invariant
                screen@.len() == old(screen)@.len(),
                i <= screen@.len(),
                forall|j: int| 0 <= j < i ==> screen@[j] == 0u8,
            decreases screen@.len() - i,
        {
            screen[i] = 0u8;
            i = i + 1;
        }
        proof {
            assert(screen@ =~= zeroed);
        }
        let mut all_points: Vec<(Vec3, Color, Vec3)> = Vec::new();
        let mut oi: usize = 0;
        while oi < self.objects.len()
            invariant
                self.wf(),
                rotation_wf(yaw),
                oi <= self.objects@.len(),
                all_points@ == visible_objects(*self, yaw, oi as int),
                forall|j: int|
                    0 <= j < all_points@.len() ==> proj_entry_ok(#[trigger] all_points@[j]),
            decreases self.objects@.len() - oi,
        {
            let object = &self.objects[oi];
            let pts = object.get_points();
            let mut pi: usize = 0;
            while pi < pts.len()
                invariant
                    self.wf(),
                    rotation_wf(yaw),
                    oi < self.objects@.len(),
                    pts@ == self.objects@[oi as int].points_spec(),
                    crate::drawable::samples_ok(pts@),
                    pi <= pts@.len(),
                    all_points@ == visible_objects(*self, yaw, oi as int) + visible_of(
                        *self,
                        yaw,
                        pts@,
                        pi as int,
                    ),
                    forall|j: int|
                        0 <= j < all_points@.len() ==> proj_entry_ok(#[trigger] all_points@[j]),
                decreases pts@.len() - pi,
            {
                let (point, color, normal) = pts[pi];
                proof {
                    assert(sample_ok(pts@[pi as int]));
                    lemma_rot_y_bound(point, yaw, SAMPLE_LIMIT as int);
                    lemma_rot_x_bound(rot_y_spec(point, yaw), self.rotation_x, 2 * SAMPLE_LIMIT as int);
                    lemma_rot_y_bound(normal, yaw, FX_ONE as int);
                }
                let pt_rot = self.rotateY(point, yaw);
                let pt_rot = self.rotateX(pt_rot, self.rotation_x);
                let pt_rot = pt_rot.sub(self.camera_pos);
                let pos_2d = self.project(pt_rot);
                let normal_rot = self.rotateY(normal, yaw);
                if self.is_in_bounds(pos_2d) {
                    all_points.push((pos_2d, color, normal_rot));
                }
                pi = pi + 1;
            }
            oi = oi + 1;
        }
        let sorted = sort_points_by_z(all_points);
        let light_dir_rot = self.rotateY(self.light_dir, Rotation::zero());
        proof {
            lemma_rot_y_zero(self.light_dir);
            assert(light_dir_rot == self.light_dir);
            lemma_fx_mul_exact(self.light_dir.x.raw as int);
            lemma_fx_mul_exact(self.light_dir.y.raw as int);
            lemma_fx_mul_exact(self.light_dir.z.raw as int);
            lemma_fx_mul_exact(self.light_intensity.raw as int);
            assert(ratio_spec(
                Vec3 { x: Fx { raw: 0 }, y: Fx { raw: 0 }, z: Fx { raw: 0 } },
                self.light_dir,
                self.light_intensity.raw as int,
            ) == 0) by {
                lemma_fx_mul_exact(self.light_dir.x.raw as int);
                lemma_fx_mul_exact(self.light_dir.y.raw as int);
                lemma_fx_mul_exact(self.light_dir.z.raw as int);
                lemma_fx_mul_exact(self.light_intensity.raw as int);
            }
        }
        let mut prev_normal = Vec3 { x: Fx { raw: 0 }, y: Fx { raw: 0 }, z: Fx { raw: 0 } };
        let mut prev_ratio = Fx { raw: 0 };
        let mut si: usize = 0;
        while si < sorted.len()
            invariant
                self.wf(),
                light_dir_rot == self.light_dir,
                si <= sorted@.len(),
                forall|j: int| 0 <= j < sorted@.len() ==> proj_entry_ok(#[trigger] sorted@[j]),
                vec3_within(prev_normal, NORMAL_LIMIT as int),
                prev_ratio.raw == ratio_spec(prev_normal, self.light_dir, self.light_intensity.raw as int),
                screen@.len() == self.width * self.height * 4,
                screen@ == composite_spec(
                    zeroed,
                    self.width as int,
                    self.height as int,
                    self.light_dir,
                    self.light_intensity.raw as int,
                    sorted@,
                    si as int,
                ),
            decreases sorted@.len() - si,
        {
            let (pos_2d, color, normal) = sorted[si];
            proof {
                assert(proj_entry_ok(sorted@[si as int]));
            }
            let normal_ratio = if normal == prev_normal {
                prev_ratio
            } else {
                shading_ratio(normal, light_dir_rot, self.light_intensity)
            };
            proof {
                lemma_fx_mul_unit_bound(normal_ratio.raw as int, color.r.raw as int, SAMPLE_LIMIT as int);
                lemma_fx_mul_unit_bound(normal_ratio.raw as int, color.g.raw as int, SAMPLE_LIMIT as int);
                lemma_fx_mul_unit_bound(normal_ratio.raw as int, color.b.raw as int, SAMPLE_LIMIT as int);
                assert(fx_mul_spec(color.r.raw as int, normal_ratio.raw as int) == fx_mul_spec(
                    normal_ratio.raw as int,
                    color.r.raw as int,
                )) by {
                    assert(color.r.raw as int * normal_ratio.raw as int == normal_ratio.raw as int
                        * color.r.raw as int) by (nonlinear_arith);
                }
                assert(fx_mul_spec(color.g.raw as int, normal_ratio.raw as int) == fx_mul_spec(
                    normal_ratio.raw as int,
                    color.g.raw as int,
                )) by {
                    assert(color.g.raw as int * normal_ratio.raw as int == normal_ratio.raw as int
                        * color.g.raw as int) by (nonlinear_arith);
                }
                assert(fx_mul_spec(color.b.raw as int, normal_ratio.raw as int) == fx_mul_spec(
                    normal_ratio.raw as int,
                    color.b.raw as int,
                )) by {
                    assert(color.b.raw as int * normal_ratio.raw as int == normal_ratio.raw as int
                        * color.b.raw as int) by (nonlinear_arith);
                }
            }
            let mut lighted_color = color;
            lighted_color = lighted_color.mul_scalar(normal_ratio);
            let rx = pos_2d.x.round();
            let ry = pos_2d.y.round();
            let sat_x = if rx < 0 {
                0i64
            } else {
                rx
            };
            let sat_y = if ry < 0 {
                0i64
            } else {
                ry
            };
            let idx = self.screen_idx(sat_x, sat_y);
            if let Some(idx) = idx {
                let c = lighted_color.as_255();
                screen[idx] = channel_byte(c.r);
                screen[idx + 1] = channel_byte(c.g);
                screen[idx + 2] = channel_byte(c.b);
                screen[idx + 3] = channel_byte(c.a);
            }
            prev_normal = normal;
            prev_ratio = normal_ratio;
            si = si + 1;
        }
    }
}

/// A transformed sample's bounds: what the compositor needs so that shading
/// and rounding cannot overflow.
pub open spec fn proj_entry_ok(e: (Vec3, Color, Vec3)) -> bool {
    vec3_within(e.0, PROJ_LIMIT as int) && color_within(e.1, SAMPLE_LIMIT as int) && vec3_within(
        e.2,
        NORMAL_LIMIT as int,
    )
}

/// Largest raw coordinate magnitude a transformed sample can reach: two
/// rotations of a bounded sample, then the camera offset.
pub const PROJ_LIMIT: i64 = 0xa0_0000_0000;

/// Componentwise difference.
pub open spec fn vec3_sub_spec(a: Vec3, b: Vec3) -> Vec3 {
    Vec3 {
        x: Fx { raw: (a.x.raw - b.x.raw) as i64 },
        y: Fx { raw: (a.y.raw - b.y.raw) as i64 },
        z: Fx { raw: (a.z.raw - b.z.raw) as i64 },
    }
}

/// Where a sample's position lands in screen space: rotated by yaw, then by
/// the fixed pitch, offset by the camera, projected orthographically.
pub open spec fn transform_pos_spec(w: World, yaw: Rotation, p: Vec3) -> Vec3 {
    vec3_sub_spec(rot_x_spec(rot_y_spec(p, yaw), w.rotation_x), w.camera_pos)
}

/// The visible transformed samples among the first `k` of one point cloud, in
/// order: position transformed, normal rotated by yaw, out-of-bounds samples
/// dropped.
pub open spec fn visible_of(
    w: World,
    yaw: Rotation,
    pts: Seq<(Vec3, Color, Vec3)>,
    k: int,
) -> Seq<(Vec3, Color, Vec3)>
    decreases k,
{
    if k <= 0 {
        Seq::empty()
    } else {
        let prev = visible_of(w, yaw, pts, k - 1);
        let s = pts[k - 1];
        let pos_2d = transform_pos_spec(w, yaw, s.0);
        if in_bounds_spec(w.width as int, w.height as int, pos_2d) {
            prev.push((pos_2d, s.1, rot_y_spec(s.2, yaw)))
        } else {
            prev
        }
    }
}

/// The visible transformed samples of the first `m` objects, in object order.
pub open spec fn visible_objects(w: World, yaw: Rotation, m: int) -> Seq<(Vec3, Color, Vec3)>
    decreases m,
{
    if m <= 0 {
        Seq::empty()
    } else {
        visible_objects(w, yaw, m - 1) + visible_of(
            w,
            yaw,
            w.objects@[m - 1].points_spec(),
            w.objects@[m - 1].points_spec().len() as int,
        )
    }
}

/// Every visible transformed sample of the scene, in collection order.
pub open spec fn visible_seq(w: World, yaw: Rotation) -> Seq<(Vec3, Color, Vec3)> {
    visible_objects(w, yaw, w.objects@.len() as int)
}

/// Inserts `x` into `s` after every entry whose depth does not exceed `x`'s:
/// where a stable insertion sort puts it.
pub open spec fn insert_by_z(
    s: Seq<(Vec3, Color, Vec3)>,
    x: (Vec3, Color, Vec3),
) -> Seq<(Vec3, Color, Vec3)>
    decreases s.len(),
{
    if s.len() == 0 {
        seq![x]
    } else if s.last().0.z.raw <= x.0.z.raw {
        s.push(x)
    } else {
        insert_by_z(s.drop_last(), x).push(s.last())
    }
}

/// Stable sort by projected depth, ascending: entries of equal depth keep
/// their collection order.
pub open spec fn sort_by_z(s: Seq<(Vec3, Color, Vec3)>) -> Seq<(Vec3, Color, Vec3)>
    decreases s.len(),
{
    if s.len() == 0 {
        Seq::empty()
    } else {
        insert_by_z(sort_by_z(s.drop_last()), s.last())
    }
}

/// Ascending by projected depth.
pub open spec fn z_sorted(s: Seq<(Vec3, Color, Vec3)>) -> bool {
    forall|i: int, j: int| 0 <= i <= j < s.len() ==> s[i].0.z.raw <= s[j].0.z.raw
}

/// Insertion adds exactly the inserted entry: the result holds the same
/// entries, plus one.
proof fn lemma_insert_by_z_multiset(s: Seq<(Vec3, Color, Vec3)>, x: (Vec3, Color, Vec3))
    ensures
        insert_by_z(s, x).to_multiset() == s.to_multiset().insert(x),
    decreases s.len(),
{
    broadcast use vstd::multiset::group_multiset_axioms;

    if s.len() == 0 {
        assert(s =~= Seq::<(Vec3, Color, Vec3)>::empty());
        assert(seq![x] == s.push(x));
        vstd::seq_lib::to_multiset_build(s, x);
        assert(insert_by_z(s, x).to_multiset() =~= s.to_multiset().insert(x));
    } else if s.last().0.z.raw <= x.0.z.raw {
        vstd::seq_lib::to_multiset_build(s, x);
        assert(insert_by_z(s, x).to_multiset() =~= s.to_multiset().insert(x));
    } else {
        lemma_insert_by_z_multiset(s.drop_last(), x);
        vstd::seq_lib::to_multiset_build(insert_by_z(s.drop_last(), x), s.last());
        assert(s.drop_last().push(s.last()) =~= s);
        vstd::seq_lib::to_multiset_build(s.drop_last(), s.last());
        assert(insert_by_z(s, x).to_multiset() =~= s.to_multiset().insert(x));
    }
}

/// Insertion keeps the sequence ascending by depth, and cannot raise its
/// deepest entry past the deeper of the old deepest and the inserted one.
proof fn lemma_insert_by_z_sorted(s: Seq<(Vec3, Color, Vec3)>, x: (Vec3, Color, Vec3))
    requires
        z_sorted(s),
    ensures
        z_sorted(insert_by_z(s, x)),
        insert_by_z(s, x).len() == s.len() + 1,
        insert_by_z(s, x).last().0.z.raw == if s.len() > 0 && s.last().0.z.raw > x.0.z.raw {
            s.last().0.z.raw
        } else {
            x.0.z.raw
        },
    decreases s.len(),
{
    if s.len() == 0 {
    } else if s.last().0.z.raw <= x.0.z.raw {
        let t = s.push(x);
        assert forall|i: int, j: int| 0 <= i <= j < t.len() implies t[i].0.z.raw <= t[j].0.z.raw by {
            if j == t.len() - 1 && i < j {
                assert(s[i].0.z.raw <= s.last().0.z.raw);
            }
        }
    } else {
        assert(z_sorted(s.drop_last()));
        lemma_insert_by_z_sorted(s.drop_last(), x);
        let t0 = insert_by_z(s.drop_last(), x);
        let t = t0.push(s.last());
        assert(t0.last().0.z.raw <= s.last().0.z.raw);
        assert forall|i: int, j: int| 0 <= i <= j < t.len() implies t[i].0.z.raw <= t[j].0.z.raw by {
            if j == t.len() - 1 && i < j {
                assert(t0[i].0.z.raw <= t0.last().0.z.raw);
            }
        }
    }
}

/// The depth sort really sorts: its result ascends by projected depth.
pub proof fn lemma_sort_by_z_sorted(s: Seq<(Vec3, Color, Vec3)>)
    ensures
        z_sorted(sort_by_z(s)),
    decreases s.len(),
{
    if s.len() > 0 {
        lemma_sort_by_z_sorted(s.drop_last());
        lemma_insert_by_z_sorted(sort_by_z(s.drop_last()), s.last());
    }
}

/// The depth sort loses and invents nothing: its result holds exactly the
/// entries it was given.
pub proof fn lemma_sort_by_z_permutes(s: Seq<(Vec3, Color, Vec3)>)
    ensures
        sort_by_z(s).to_multiset() == s.to_multiset(),
    decreases s.len(),
{
    broadcast use vstd::multiset::group_multiset_axioms;

    if s.len() == 0 {
        assert(s =~= Seq::<(Vec3, Color, Vec3)>::empty());
    } else {
        lemma_sort_by_z_permutes(s.drop_last());
        lemma_insert_by_z_multiset(sort_by_z(s.drop_last()), s.last());
        assert(s.drop_last().push(s.last()) =~= s);
        vstd::seq_lib::to_multiset_build(s.drop_last(), s.last());
        assert(sort_by_z(s).to_multiset() =~= s.to_multiset());
    }
}

/// The raster column a sample writes to: its rounded screen X, saturated at
/// zero (the semantics of a float-to-index cast).
pub open spec fn pixel_x(e: (Vec3, Color, Vec3)) -> int {
    let rx = fx_round_spec(e.0.x.raw as int);
    if rx < 0 {
        0
    } else {
        rx
    }
}

/// The raster row a sample writes to: its rounded screen Y, saturated at zero.
pub open spec fn pixel_y(e: (Vec3, Color, Vec3)) -> int {
    let ry = fx_round_spec(e.0.y.raw as int);
    if ry < 0 {
        0
    } else {
        ry
    }
}

/// The byte one shaded channel writes: the channel scaled by the shading
/// ratio, then by 255, then truncated and saturated into a byte.
pub open spec fn shaded_chan_spec(c: Fx, ratio: int) -> int {
    chan_byte_spec(fx_mul_spec(c.raw as int, ratio) * 255)
}

/// One sample written into the raster: its four shaded channel bytes at its
/// pixel, or nothing if the pixel falls outside.
pub open spec fn write_sample(
    screen: Seq<u8>,
    width: int,
    height: int,
    light: Vec3,
    intensity: int,
    e: (Vec3, Color, Vec3),
) -> Seq<u8> {
    let ix = pixel_x(e);
    let iy = pixel_y(e);
    if ix < width && iy < height {
        let idx = ix * 4 + iy * width * 4;
        let ratio = ratio_spec(e.2, light, intensity);
        screen.update(idx, shaded_chan_spec(e.1.r, ratio) as u8).update(
            idx + 1,
            shaded_chan_spec(e.1.g, ratio) as u8,
        ).update(idx + 2, shaded_chan_spec(e.1.b, ratio) as u8).update(
            idx + 3,
            chan_byte_spec(e.1.a.raw as int * 255) as u8,
        )
    } else {
        screen
    }
}

/// The first `k` samples written into the raster, in order: later samples
/// overwrite earlier ones on the same pixel.
pub open spec fn composite_spec(
    screen: Seq<u8>,
    width: int,
    height: int,
    light: Vec3,
    intensity: int,
    pts: Seq<(Vec3, Color, Vec3)>,
    k: int,
) -> Seq<u8>
    decreases k,
{
    if k <= 0 {
        screen
    } else {
        write_sample(
            composite_spec(screen, width, height, light, intensity, pts, k - 1),
            width,
            height,
            light,
            intensity,
            pts[k - 1],
        )
    }
}

/// A cleared raster: transparent black everywhere.
pub open spec fn zero_screen(width: int, height: int) -> Seq<u8> {
    Seq::new((width * height * 4) as nat, |i: int| 0u8)
}

/// What one frame holds: the cleared raster, then every visible sample
/// composited in ascending depth order.
pub open spec fn draw_spec(w: World, yaw: Rotation) -> Seq<u8> {
    let vis = sort_by_z(visible_seq(w, yaw));
    composite_spec(
        zero_screen(w.width as int, w.height as int),
        w.width as int,
        w.height as int,
        w.light_dir,
        w.light_intensity.raw as int,
        vis,
        vis.len() as int,
    )
}

/// Whether a sample writes to the raster cell `(ix, iy)`.
pub open spec fn hits_pixel(e: (Vec3, Color, Vec3), ix: int, iy: int) -> bool {
    pixel_x(e) == ix && pixel_y(e) == iy
}

/// The position of the last sample among the first `k` that writes to the
/// cell `(ix, iy)`, or `-1` if none does.
pub open spec fn last_hit(pts: Seq<(Vec3, Color, Vec3)>, k: int, ix: int, iy: int) -> int
    decreases k,
{
    if k <= 0 {
        -1
    } else if hits_pixel(pts[k - 1], ix, iy) {
        k - 1
    } else {
        last_hit(pts, k - 1, ix, iy)
    }
}

/// Two distinct raster cells have distinct row-major cell numbers.
proof fn lemma_pixel_cells_distinct(width: int, ix: int, iy: int, jx: int, jy: int)
    requires
        0 <= ix < width,
        0 <= jx < width,
        0 <= iy,
        0 <= jy,
        (ix, iy) != ((jx, jy)),
    ensures
        ix + iy * width != jx + jy * width,
{
    if iy != jy {
        assert((iy - jy) * width >= width || (iy - jy) * width <= -width) by (nonlinear_arith)
            requires
                iy != jy,
                width >= 1,
        ;
        assert(iy * width - jy * width == (iy - jy) * width) by (nonlinear_arith);
    }
}

/// What compositing leaves at one raster cell: the shaded channel bytes of
/// the last sample that hit it, or the cell's prior contents if none did.
/// Every earlier write to the cell is overwritten.
pub proof fn lemma_composite_last_write(
    screen: Seq<u8>,
    width: int,
    height: int,
    light: Vec3,
    intensity: int,
    pts: Seq<(Vec3, Color, Vec3)>,
    k: int,
    ix: int,
    iy: int,
)
    requires
        0 <= ix < width,
        0 <= iy < height,
        screen.len() == width * height * 4,
        0 <= k <= pts.len(),
    ensures
        composite_spec(screen, width, height, light, intensity, pts, k).len() == screen.len(),
        ({
            let res = composite_spec(screen, width, height, light, intensity, pts, k);
            let idx = ix * 4 + iy * width * 4;
            let h = last_hit(pts, k, ix, iy);
            if h >= 0 {
                let ratio = ratio_spec(pts[h].2, light, intensity);
                &&& res[idx] == shaded_chan_spec(pts[h].1.r, ratio) as u8
                &&& res[idx + 1] == shaded_chan_spec(pts[h].1.g, ratio) as u8
                &&& res[idx + 2] == shaded_chan_spec(pts[h].1.b, ratio) as u8
                &&& res[idx + 3] == chan_byte_spec(pts[h].1.a.raw as int * 255) as u8
            } else {
                &&& res[idx] == screen[idx]
                &&& res[idx + 1] == screen[idx + 1]
                &&& res[idx + 2] == screen[idx + 2]
                &&& res[idx + 3] == screen[idx + 3]
            }
        }),
    decreases k,
{
    let idx = ix * 4 + iy * width * 4;
    lemma_mul_inequality(iy, height - 1, width);
    assert((height - 1) * width + width == width * height) by (nonlinear_arith);
    assert(idx + 4 <= width * height * 4);
    if k > 0 {
        lemma_composite_last_write(screen, width, height, light, intensity, pts, k - 1, ix, iy);
        let prev = composite_spec(screen, width, height, light, intensity, pts, k - 1);
        let e = pts[k - 1];
        let ex = pixel_x(e);
        let ey = pixel_y(e);
        if ex < width && ey < height {
            let jdx = ex * 4 + ey * width * 4;
            lemma_mul_inequality(ey, height - 1, width);
            assert(jdx + 4 <= width * height * 4);
            if ex == ix && ey == iy {
                assert(hits_pixel(e, ix, iy));
            } else {
                lemma_pixel_cells_distinct(width, ix, iy, ex, ey);
                assert(ix * 4 + iy * width * 4 == (ix + iy * width) * 4) by (nonlinear_arith);
                assert(ex * 4 + ey * width * 4 == (ex + ey * width) * 4) by (nonlinear_arith);
                // the two cells' four-byte ranges are disjoint
                assert((ix + iy * width) * 4 + 4 <= (ex + ey * width) * 4 || (ex + ey * width) * 4
                    + 4 <= (ix + iy * width) * 4) by (nonlinear_arith)
                    requires
                        ix + iy * width != ex + ey * width,
                ;
            }
        }
    }
}

/// The painter's algorithm resolves depth, not collection order: of two
/// samples landing on the same pixel at different depths, compositing writes
/// the deeper one's shaded color at that pixel, whichever of the two was
/// collected first.
pub proof fn lemma_depth_overwrite(
    screen0: Seq<u8>,
    width: int,
    height: int,
    light: Vec3,
    intensity: int,
    a: (Vec3, Color, Vec3),
    b: (Vec3, Color, Vec3),
)
    requires
        pixel_x(a) == pixel_x(b),
        pixel_y(a) == pixel_y(b),
        pixel_x(b) < width,
        pixel_y(b) < height,
        a.0.z.raw < b.0.z.raw,
        screen0.len() >= pixel_x(b) * 4 + pixel_y(b) * width * 4 + 4,
    ensures
        sort_by_z(seq![a, b]) == sort_by_z(seq![b, a]),
        composite_spec(screen0, width, height, light, intensity, sort_by_z(seq![a, b]), 2)
            == composite_spec(screen0, width, height, light, intensity, sort_by_z(seq![b, a]), 2),
        ({
            let res = composite_spec(
                screen0,
                width,
                height,
                light,
                intensity,
                sort_by_z(seq![a, b]),
                2,
            );
            let idx = pixel_x(b) * 4 + pixel_y(b) * width * 4;
            let ratio = ratio_spec(b.2, light, intensity);
            &&& res[idx] == shaded_chan_spec(b.1.r, ratio) as u8
            &&& res[idx + 1] == shaded_chan_spec(b.1.g, ratio) as u8
            &&& res[idx + 2] == shaded_chan_spec(b.1.b, ratio) as u8
            &&& res[idx + 3] == chan_byte_spec(b.1.a.raw as int * 255) as u8
        }),
{
    reveal_with_fuel(sort_by_z, 3);
    reveal_with_fuel(insert_by_z, 3);
    reveal_with_fuel(composite_spec, 3);
    let s = seq![a, b];
    let t = seq![b, a];
    assert(s.drop_last() =~= seq![a]);
    assert(seq![a].drop_last() =~= Seq::<(Vec3, Color, Vec3)>::empty());
    assert(sort_by_z(seq![a]) == insert_by_z(Seq::<(Vec3, Color, Vec3)>::empty(), a));
    assert(sort_by_z(s) =~= seq![a, b]);
    assert(t.drop_last() =~= seq![b]);
    assert(seq![b].drop_last() =~= Seq::<(Vec3, Color, Vec3)>::empty());
    assert(sort_by_z(seq![b]) == insert_by_z(Seq::<(Vec3, Color, Vec3)>::empty(), b));
    assert(insert_by_z(seq![b], a) == insert_by_z(Seq::<(Vec3, Color, Vec3)>::empty(), a).push(b));
    assert(sort_by_z(t) =~= seq![a, b]);
    let v = sort_by_z(s);
    assert(composite_spec(screen0, width, height, light, intensity, v, 2) == write_sample(
        write_sample(screen0, width, height, light, intensity, a),
        width,
        height,
        light,
        intensity,
        b,
    ));
}

/// Inserting at the scanned position is what `insert_by_z` computes.
proof fn lemma_insert_by_z_at(s: Seq<(Vec3, Color, Vec3)>, x: (Vec3, Color, Vec3), k: int)
    requires
        0 <= k <= s.len(),
        forall|m: int| k <= m < s.len() ==> s[m].0.z.raw > x.0.z.raw,
        k > 0 ==> s[k - 1].0.z.raw <= x.0.z.raw,
    ensures
        insert_by_z(s, x) == s.insert(k, x),
    decreases s.len(),
{
    if s.len() == 0 {
        assert(insert_by_z(s, x) =~= s.insert(0, x));
    } else if s.last().0.z.raw <= x.0.z.raw {
        assert(k == s.len());
        assert(insert_by_z(s, x) =~= s.insert(k, x));
    } else {
        assert(k < s.len());
        lemma_insert_by_z_at(s.drop_last(), x, k);
        assert(s.drop_last().insert(k, x).push(s.last()) =~= s.insert(k, x));
    }
}

/// Stable insertion sort by depth.
fn sort_points_by_z(pts: Vec<(Vec3, Color, Vec3)>) -> (out: Vec<(Vec3, Color, Vec3)>)
    requires
        forall|j: int| 0 <= j < pts@.len() ==> proj_entry_ok(#[trigger] pts@[j]),
    ensures
        out@ == sort_by_z(pts@),
        forall|j: int| 0 <= j < out@.len() ==> proj_entry_ok(#[trigger] out@[j]),
{
    let mut out: Vec<(Vec3, Color, Vec3)> = Vec::new();
    let mut i: usize = 0;
    while i < pts.len()
        invariant
            forall|j: int| 0 <= j < pts@.len() ==> proj_entry_ok(#[trigger] pts@[j]),
            i <= pts@.len(),
            out@ == sort_by_z(pts@.take(i as int)),
            forall|j: int| 0 <= j < out@.len() ==> proj_entry_ok(#[trigger] out@[j]),
        decreases pts@.len() - i,
    {
        let x = pts[i];
        let mut k: usize = out.len();
        while k > 0 && out[k - 1].0.z.raw > x.0.z.raw
            invariant
                k <= out@.len(),
                forall|m: int| k <= m < out@.len() ==> out@[m].0.z.raw > x.0.z.raw,
            decreases k,
        {
            k = k - 1;
        }
        let ghost out0 = out@;
        out.insert(k, x);
        proof {
            lemma_insert_by_z_at(out0, x, k as int);
            out0.insert_ensures(k as int, x);
            assert(pts@.take(i + 1).drop_last() =~= pts@.take(i as int));
            assert(pts@.take(i + 1).last() == pts@[i as int]);
            assert(out@ == sort_by_z(pts@.take(i + 1)));
        }
        i = i + 1;
    }
    proof {
        assert(pts@.take(pts@.len() as int) =~= pts@);
    }
    out
}

} // verus!

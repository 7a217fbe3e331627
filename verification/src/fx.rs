//! Fixed-point scalars and 3-vectors.
//!
//! A scalar is stored as a signed 64-bit integer holding the value scaled by
//! `FX_ONE` (16 fractional bits). All rounding is done half-away-from-zero,
//! which keeps negation exact: `round(-v) == -round(v)`. That symmetry is what
//! makes box corners land symmetrically around the center.

use vstd::prelude::*;

verus! {

/// The raw representation of the value `1`.
pub const FX_ONE: i64 = 65536;

/// The raw representation of the value `1/2`.
pub const FX_HALF: i64 = 32768;

/// Largest raw magnitude the multiplication helpers accept; generous enough
/// for every quantity the renderer produces while keeping every intermediate
/// product inside `i128` and every result inside `i64`.
pub const FX_RAW_LIMIT: i64 = 0x80_0000_0000;

/// Rounds the quotient `n / d` (for `d > 0`) to the nearest integer, ties away
/// from zero.
pub open spec fn round_half_away(n: int, d: int) -> int
    recommends
        d > 0,
{
    if n >= 0 {
        (n + d / 2) / d
    } else {
        -((-n + d / 2) / d)
    }
}

/// The nearest integer to the fixed-point value with raw representation `raw`,
/// ties away from zero.
pub open spec fn fx_round_spec(raw: int) -> int {
    round_half_away(raw, FX_ONE as int)
}

/// Raw representation of the product of two fixed-point values.
pub open spec fn fx_mul_spec(a: int, b: int) -> int {
    round_half_away(a * b, FX_ONE as int)
}

/// Raw representation of the quotient of two fixed-point values (`b != 0`),
/// rounded half-away-from-zero.
pub open spec fn fx_div_spec(a: int, b: int) -> int
    recommends
        b != 0,
{
    if b > 0 {
        round_half_away(a * FX_ONE, b)
    } else {
        round_half_away(-(a * FX_ONE), -b)
    }
}

/// A fixed-point scalar: the represented value is `raw / FX_ONE`.
#[derive(Clone, Copy, PartialEq, Eq, Structural, Debug)]
pub struct Fx {
    pub raw: i64,
}

/// `-bound <= f <= bound`, on raw representations.
pub open spec fn fx_within(f: Fx, bound: int) -> bool {
    -bound <= f.raw <= bound
}

impl Fx {
    /// The scalar `0`.
    pub fn zero() -> (r: Fx)
        ensures
            r.raw == 0,
    {
        Fx { raw: 0 }
    }

    /// The scalar `1`.
    pub fn one() -> (r: Fx)
        ensures
            r.raw == FX_ONE,
    {
        Fx { raw: FX_ONE }
    }

    /// Builds the scalar from its raw representation.
    pub fn from_raw(raw: i64) -> (r: Fx)
        ensures
            r.raw == raw,
    {
        Fx { raw }
    }

    /// The scalar holding the integer `v` exactly.
    pub fn from_int(v: i64) -> (r: Fx)
        requires
            -0x4000_0000_0000 <= v <= 0x4000_0000_0000,
        ensures
            r.raw == v * FX_ONE,
    {
        Fx { raw: v * FX_ONE }
    }

    /// Exact addition.
    pub fn add(self, other: Fx) -> (r: Fx)
        requires
            i64::MIN <= self.raw + other.raw <= i64::MAX,
        ensures
            r.raw == self.raw + other.raw,
    {
        Fx { raw: self.raw + other.raw }
    }

    /// Exact subtraction.
    pub fn sub(self, other: Fx) -> (r: Fx)
        requires
            i64::MIN <= self.raw - other.raw <= i64::MAX,
        ensures
            r.raw == self.raw - other.raw,
    {
        Fx { raw: self.raw - other.raw }
    }

    /// Exact negation.
    pub fn neg(self) -> (r: Fx)
        requires
            self.raw > i64::MIN,
        ensures
            r.raw == -self.raw,
    {
        Fx { raw: -self.raw }
    }

    /// Fixed-point multiplication, rounded half-away-from-zero.
    pub fn mul(self, other: Fx) -> (r: Fx)
        requires
            fx_within(self, FX_RAW_LIMIT as int),
            fx_within(other, FX_RAW_LIMIT as int),
        ensures
            r.raw == fx_mul_spec(self.raw as int, other.raw as int),
    {
        proof {
            lemma_mul_magnitude(self.raw as int, other.raw as int, FX_RAW_LIMIT as int);
        }
        let p: i128 = (self.raw as i128) * (other.raw as i128);
        if p >= 0 {
            let q: u128 = ((p as u128) + (FX_HALF as u128)) / (FX_ONE as u128);
            Fx { raw: q as i64 }
        } else {
            let q: u128 = (((-p) as u128) + (FX_HALF as u128)) / (FX_ONE as u128);
            Fx { raw: -(q as i64) }
        }
    }

    /// Fixed-point division, rounded half-away-from-zero.
    pub fn div(self, other: Fx) -> (r: Fx)
        requires
            fx_within(self, FX_RAW_LIMIT as int),
            other.raw != 0,
        ensures
            r.raw == fx_div_spec(self.raw as int, other.raw as int),
    {
        let n: i128 = (self.raw as i128) * (FX_ONE as i128);
        let b: i128 = other.raw as i128;
        let nabs: u128 = if n >= 0 {
            n as u128
        } else {
            (-n) as u128
        };
        let babs: u128 = if b >= 0 {
            b as u128
        } else {
            (-b) as u128
        };
        let q: u128 = (nabs + babs / 2) / babs;
        proof {
            lemma_rounded_quotient_bound(nabs as int, babs as int);
            if nabs == 0 {
                vstd::arithmetic::div_mod::lemma_basic_div((babs / 2) as int, babs as int);
            }
            assert(n == self.raw as int * FX_ONE as int);
            if other.raw as int > 0 {
                if n >= 0 {
                    assert(fx_div_spec(self.raw as int, other.raw as int) == q as int);
                } else {
                    assert(fx_div_spec(self.raw as int, other.raw as int) == -(q as int));
                }
            } else {
                if n > 0 {
                    assert(fx_div_spec(self.raw as int, other.raw as int) == -(q as int));
                } else if n == 0 {
                    assert(q == 0);
                    assert(fx_div_spec(self.raw as int, other.raw as int) == 0);
                } else {
                    assert(fx_div_spec(self.raw as int, other.raw as int) == q as int);
                }
            }
        }
        if (n >= 0) == (b >= 0) {
            Fx { raw: q as i64 }
        } else {
            Fx { raw: -(q as i64) }
        }
    }

    /// The nearest integer to this value, ties away from zero.
    pub fn round(self) -> (r: i64)
        requires
            -0x4000_0000_0000_0000 <= self.raw <= 0x4000_0000_0000_0000,
        ensures
            r == fx_round_spec(self.raw as int),
    {
        if self.raw >= 0 {
            ((self.raw as u64 + FX_HALF as u64) / (FX_ONE as u64)) as i64
        } else {
            -((((-self.raw) as u64 + FX_HALF as u64) / (FX_ONE as u64)) as i64)
        }
    }
}

/// `|a| <= m && |b| <= m` bounds the product by `m * m`.
proof fn lemma_mul_magnitude(a: int, b: int, m: int)
    by (nonlinear_arith)
    requires
        -m <= a <= m,
        -m <= b <= m,
        0 <= m,
    ensures
        -(m * m) <= a * b <= m * m,
{
}

/// Rounding half-away adds at most one to the magnitude of the quotient.
proof fn lemma_rounded_quotient_bound(n: int, d: int)
    requires
        n >= 0,
        d >= 1,
    ensures
        0 <= (n + d / 2) / d <= n + 1,
{
    vstd::arithmetic::div_mod::lemma_div_pos_is_pos(n + d / 2, d);
    vstd::arithmetic::div_mod::lemma_div_is_ordered(n + d / 2, n + d, d);
    vstd::arithmetic::div_mod::lemma_div_plus_one(n, d);
    vstd::arithmetic::div_mod::lemma_div_nonincreasing(n, d);
}

/// The rounded quotient is bounded by the quotient of the bounds.
pub proof fn lemma_round_half_away_bound(n: int, d: int, m: int)
    requires
        d > 0,
        -m <= n <= m,
        0 <= m,
    ensures
        -((m + d / 2) / d) <= round_half_away(n, d) <= (m + d / 2) / d,
{
    if n >= 0 {
        vstd::arithmetic::div_mod::lemma_div_is_ordered(n + d / 2, m + d / 2, d);
        vstd::arithmetic::div_mod::lemma_div_is_ordered(0, n + d / 2, d);
    } else {
        vstd::arithmetic::div_mod::lemma_div_is_ordered(-n + d / 2, m + d / 2, d);
        vstd::arithmetic::div_mod::lemma_div_is_ordered(0, -n + d / 2, d);
    }
}

/// A fixed-point 3-vector.
#[derive(Clone, Copy, PartialEq, Eq, Structural, Debug)]
pub struct Vec3 {
    pub x: Fx,
    pub y: Fx,
    pub z: Fx,
}

/// Every component within `bound`, on raw representations.
pub open spec fn vec3_within(v: Vec3, bound: int) -> bool {
    fx_within(v.x, bound) && fx_within(v.y, bound) && fx_within(v.z, bound)
}

impl Vec3 {
    /// Builds a vector from its components.
    pub fn new(x: Fx, y: Fx, z: Fx) -> (r: Vec3)
        ensures
            r == (Vec3 { x, y, z }),
    {
        Vec3 { x, y, z }
    }

    /// The zero vector.
    pub fn zero() -> (r: Vec3)
        ensures
            r.x.raw == 0 && r.y.raw == 0 && r.z.raw == 0,
    {
        Vec3 { x: Fx { raw: 0 }, y: Fx { raw: 0 }, z: Fx { raw: 0 } }
    }

    /// The vector holding three integers exactly.
    pub fn from_ints(x: i64, y: i64, z: i64) -> (r: Vec3)
        requires
            -0x4000_0000_0000 <= x <= 0x4000_0000_0000,
            -0x4000_0000_0000 <= y <= 0x4000_0000_0000,
            -0x4000_0000_0000 <= z <= 0x4000_0000_0000,
        ensures
            r.x.raw == x * FX_ONE,
            r.y.raw == y * FX_ONE,
            r.z.raw == z * FX_ONE,
    {
        Vec3 { x: Fx::from_int(x), y: Fx::from_int(y), z: Fx::from_int(z) }
    }

    /// Componentwise addition.
    pub fn add(self, other: Vec3) -> (r: Vec3)
        requires
            i64::MIN <= self.x.raw + other.x.raw <= i64::MAX,
            i64::MIN <= self.y.raw + other.y.raw <= i64::MAX,
            i64::MIN <= self.z.raw + other.z.raw <= i64::MAX,
        ensures
            r.x.raw == self.x.raw + other.x.raw,
            r.y.raw == self.y.raw + other.y.raw,
            r.z.raw == self.z.raw + other.z.raw,
    {
        Vec3 { x: self.x.add(other.x), y: self.y.add(other.y), z: self.z.add(other.z) }
    }

    /// Componentwise subtraction.
    pub fn sub(self, other: Vec3) -> (r: Vec3)
        requires
            i64::MIN <= self.x.raw - other.x.raw <= i64::MAX,
            i64::MIN <= self.y.raw - other.y.raw <= i64::MAX,
            i64::MIN <= self.z.raw - other.z.raw <= i64::MAX,
        ensures
            r.x.raw == self.x.raw - other.x.raw,
            r.y.raw == self.y.raw - other.y.raw,
            r.z.raw == self.z.raw - other.z.raw,
    {
        Vec3 { x: self.x.sub(other.x), y: self.y.sub(other.y), z: self.z.sub(other.z) }
    }
}

} // verus!

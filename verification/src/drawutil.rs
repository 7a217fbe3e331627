//! The discrete line and face rasterizer.
//!
//! `set_line` rounds its endpoints to the integer lattice and enumerates every
//! lattice point of the connecting segment with an integer stepping walk: one
//! step per unit of the longest axis delta, each coordinate moving
//! monotonically by at most one per step, both endpoints included. The walk is
//! computed from the lexicographically smaller endpoint, so swapping the
//! endpoints yields exactly the reversed sequence. `fill_vertical` and
//! `fill_horizontal` sweep a family of such lines between two parallel edges
//! to approximate the quad between them as a ruled surface.

use vstd::arithmetic::div_mod::{
    lemma_basic_div, lemma_div_is_ordered, lemma_div_plus_one, lemma_div_pos_is_pos,
    lemma_fundamental_div_mod_converse_div,
};
use vstd::arithmetic::mul::lemma_mul_inequality;
use vstd::prelude::*;

use crate::color::Color;
use crate::fx::{fx_round_spec, vec3_within, Fx, Vec3, FX_ONE};

verus! {

/// Largest coordinate magnitude the rasterizer accepts, so that every
/// intermediate product of the stepping arithmetic fits in the machine words
/// used below.
pub const LATTICE_LIMIT: i64 = 0x4000_0000;

/// A point of the integer lattice.
#[derive(Clone, Copy, PartialEq, Eq, Structural, Debug)]
pub struct LatticePoint {
    pub x: i64,
    pub y: i64,
    pub z: i64,
}

/// The magnitude of `v`.
pub open spec fn mag(v: int) -> int {
    if v >= 0 {
        v
    } else {
        -v
    }
}

/// The larger of two values.
pub open spec fn pick_max(a: int, b: int) -> int {
    if a >= b {
        a
    } else {
        b
    }
}

/// The smaller of two values.
pub open spec fn pick_min(a: int, b: int) -> int {
    if a <= b {
        a
    } else {
        b
    }
}

/// Every coordinate within `bound` in magnitude.
pub open spec fn lattice_within(p: LatticePoint, bound: int) -> bool {
    -bound <= p.x <= bound && -bound <= p.y <= bound && -bound <= p.z <= bound
}

/// The Chebyshev distance of two lattice points: the number of steps the walk
/// between them takes.
pub open spec fn cheb(a: LatticePoint, b: LatticePoint) -> int {
    pick_max(mag(b.x - a.x), pick_max(mag(b.y - a.y), mag(b.z - a.z)))
}

/// How far (in magnitude) an axis with total delta magnitude `ad` has moved
/// after `i` of `n` steps: `i * ad / n` rounded to the nearest integer, ties
/// up.
pub open spec fn step_mag(ad: int, n: int, i: int) -> int
    recommends
        n >= 1,
{
    (2 * i * ad + n) / (2 * n)
}

/// The signed offset of an axis with total delta `d` after `i` of `n` steps.
pub open spec fn step_off(d: int, n: int, i: int) -> int {
    if n == 0 {
        0
    } else if d >= 0 {
        step_mag(d, n, i)
    } else {
        -step_mag(-d, n, i)
    }
}

/// The `i`-th point of the walk from `a` to `b`.
pub open spec fn walk_point(a: LatticePoint, b: LatticePoint, i: int) -> LatticePoint {
    LatticePoint {
        x: (a.x + step_off(b.x - a.x, cheb(a, b), i)) as i64,
        y: (a.y + step_off(b.y - a.y, cheb(a, b), i)) as i64,
        z: (a.z + step_off(b.z - a.z, cheb(a, b), i)) as i64,
    }
}

/// The full walk from `a` to `b`: `cheb(a, b) + 1` points, endpoints included.
pub open spec fn walk_seq(a: LatticePoint, b: LatticePoint) -> Seq<LatticePoint> {
    Seq::new((cheb(a, b) + 1) as nat, |i: int| walk_point(a, b, i))
}

/// Lexicographic order on lattice points, used only to canonicalize the walk
/// direction so that `line` is symmetric.
pub open spec fn lex_le(a: LatticePoint, b: LatticePoint) -> bool {
    a.x < b.x || (a.x == b.x && (a.y < b.y || (a.y == b.y && a.z <= b.z)))
}

/// The lattice line from `a` to `b`: the walk from the lexicographically
/// smaller endpoint, reversed if that endpoint is `b`.
pub open spec fn line_seq(a: LatticePoint, b: LatticePoint) -> Seq<LatticePoint> {
    if lex_le(a, b) {
        walk_seq(a, b)
    } else {
        walk_seq(b, a).reverse()
    }
}

/// A walk makes no progress before its first step.
proof fn lemma_step_mag_zero(ad: int, n: int)
    requires
        n >= 1,
        ad >= 0,
    ensures
        step_mag(ad, n, 0) == 0,
{
    assert(2 * 0 * ad == 0) by (nonlinear_arith);
    lemma_basic_div(n, 2 * n);
}

/// A walk of `n` steps covers the whole delta.
proof fn lemma_step_mag_end(ad: int, n: int)
    requires
        n >= 1,
        0 <= ad <= n,
    ensures
        step_mag(ad, n, n) == ad,
{
    assert(2 * n * ad + n == ad * (2 * n) + n) by (nonlinear_arith);
    lemma_fundamental_div_mod_converse_div(2 * n * ad + n, 2 * n, ad, n);
}

/// Progress is never negative and never exceeds the delta.
proof fn lemma_step_mag_bounds(ad: int, n: int, i: int)
    requires
        n >= 1,
        0 <= ad <= n,
        0 <= i <= n,
    ensures
        0 <= step_mag(ad, n, i) <= ad,
{
    lemma_div_pos_is_pos(2 * i * ad + n, 2 * n);
    lemma_mul_inequality(i, n, ad);
    assert(2 * i * ad <= 2 * n * ad) by (nonlinear_arith)
        requires
            i * ad <= n * ad,
    ;
    lemma_div_is_ordered(2 * i * ad + n, 2 * n * ad + n, 2 * n);
    lemma_step_mag_end(ad, n);
}

/// Each step advances an axis by zero or one.
proof fn lemma_step_mag_step(ad: int, n: int, i: int)
    requires
        n >= 1,
        0 <= ad <= n,
        0 <= i < n,
    ensures
        step_mag(ad, n, i) <= step_mag(ad, n, i + 1) <= step_mag(ad, n, i) + 1,
{
    assert(2 * (i + 1) * ad == 2 * i * ad + 2 * ad) by (nonlinear_arith);
    lemma_div_is_ordered(2 * i * ad + n, 2 * (i + 1) * ad + n, 2 * n);
    lemma_div_is_ordered(2 * (i + 1) * ad + n, 2 * i * ad + n + 2 * n, 2 * n);
    lemma_div_plus_one(2 * i * ad + n, 2 * n);
}

/// The driving axis (delta equal to the step count) advances by exactly one
/// each step.
proof fn lemma_step_mag_driving(n: int, i: int)
    requires
        n >= 1,
        0 <= i <= n,
    ensures
        step_mag(n, n, i) == i,
{
    assert(2 * i * n + n == i * (2 * n) + n) by (nonlinear_arith);
    lemma_fundamental_div_mod_converse_div(2 * i * n + n, 2 * n, i, n);
}

/// Signed version of the step bounds: the offset stays between zero and the
/// delta.
proof fn lemma_step_off_bounds(d: int, n: int, i: int)
    requires
        n >= 1,
        mag(d) <= n,
        0 <= i <= n,
    ensures
        pick_min(0, d) <= step_off(d, n, i) <= pick_max(0, d),
{
    if d >= 0 {
        lemma_step_mag_bounds(d, n, i);
    } else {
        lemma_step_mag_bounds(-d, n, i);
    }
}

/// The first point of a walk is its start.
pub proof fn lemma_walk_first(a: LatticePoint, b: LatticePoint)
    requires
        lattice_within(a, LATTICE_LIMIT as int),
        lattice_within(b, LATTICE_LIMIT as int),
    ensures
        walk_seq(a, b).len() == cheb(a, b) + 1,
        walk_seq(a, b)[0] == a,
{
    let n = cheb(a, b);
    if n >= 1 {
        if b.x - a.x >= 0 {
            lemma_step_mag_zero(b.x - a.x, n);
        } else {
            lemma_step_mag_zero(a.x - b.x, n);
        }
        if b.y - a.y >= 0 {
            lemma_step_mag_zero(b.y - a.y, n);
        } else {
            lemma_step_mag_zero(a.y - b.y, n);
        }
        if b.z - a.z >= 0 {
            lemma_step_mag_zero(b.z - a.z, n);
        } else {
            lemma_step_mag_zero(a.z - b.z, n);
        }
    }
}

/// The last point of a walk is its end.
pub proof fn lemma_walk_last(a: LatticePoint, b: LatticePoint)
    requires
        lattice_within(a, LATTICE_LIMIT as int),
        lattice_within(b, LATTICE_LIMIT as int),
    ensures
        walk_seq(a, b).last() == b,
{
    let n = cheb(a, b);
    if n == 0 {
        lemma_walk_first(a, b);
    } else {
        if b.x - a.x >= 0 {
            lemma_step_mag_end(b.x - a.x, n);
        } else {
            lemma_step_mag_end(a.x - b.x, n);
        }
        if b.y - a.y >= 0 {
            lemma_step_mag_end(b.y - a.y, n);
        } else {
            lemma_step_mag_end(a.y - b.y, n);
        }
        if b.z - a.z >= 0 {
            lemma_step_mag_end(b.z - a.z, n);
        } else {
            lemma_step_mag_end(a.z - b.z, n);
        }
    }
}

/// Every walk point stays inside the bounding box of the endpoints.
pub proof fn lemma_walk_in_box(a: LatticePoint, b: LatticePoint, i: int)
    requires
        lattice_within(a, LATTICE_LIMIT as int),
        lattice_within(b, LATTICE_LIMIT as int),
        0 <= i <= cheb(a, b),
    ensures
        pick_min(a.x as int, b.x as int) <= walk_point(a, b, i).x <= pick_max(a.x as int, b.x as int),
        pick_min(a.y as int, b.y as int) <= walk_point(a, b, i).y <= pick_max(a.y as int, b.y as int),
        pick_min(a.z as int, b.z as int) <= walk_point(a, b, i).z <= pick_max(a.z as int, b.z as int),
{
    let n = cheb(a, b);
    if n >= 1 {
        lemma_step_off_bounds(b.x - a.x, n, i);
        lemma_step_off_bounds(b.y - a.y, n, i);
        lemma_step_off_bounds(b.z - a.z, n, i);
    }
}

/// Consecutive walk points are distinct and differ by at most one on each
/// axis: the walk advances one voxel per step and skips no cell.
pub proof fn lemma_walk_adjacent(a: LatticePoint, b: LatticePoint, i: int)
    requires
        lattice_within(a, LATTICE_LIMIT as int),
        lattice_within(b, LATTICE_LIMIT as int),
        0 <= i < cheb(a, b),
    ensures
        mag(walk_point(a, b, i + 1).x - walk_point(a, b, i).x) <= 1,
        mag(walk_point(a, b, i + 1).y - walk_point(a, b, i).y) <= 1,
        mag(walk_point(a, b, i + 1).z - walk_point(a, b, i).z) <= 1,
        walk_point(a, b, i + 1) != walk_point(a, b, i),
{
    let n = cheb(a, b);
    lemma_step_off_bounds(b.x - a.x, n, i);
    lemma_step_off_bounds(b.y - a.y, n, i);
    lemma_step_off_bounds(b.z - a.z, n, i);
    lemma_step_off_bounds(b.x - a.x, n, i + 1);
    lemma_step_off_bounds(b.y - a.y, n, i + 1);
    lemma_step_off_bounds(b.z - a.z, n, i + 1);
    if b.x - a.x >= 0 {
        lemma_step_mag_step(b.x - a.x, n, i);
    } else {
        lemma_step_mag_step(a.x - b.x, n, i);
    }
    if b.y - a.y >= 0 {
        lemma_step_mag_step(b.y - a.y, n, i);
    } else {
        lemma_step_mag_step(a.y - b.y, n, i);
    }
    if b.z - a.z >= 0 {
        lemma_step_mag_step(b.z - a.z, n, i);
    } else {
        lemma_step_mag_step(a.z - b.z, n, i);
    }
    // at least one axis realizes the Chebyshev distance and steps by exactly
    // one
    if mag(b.x - a.x) == n {
        if b.x - a.x >= 0 {
            lemma_step_mag_driving(n, i);
            lemma_step_mag_driving(n, i + 1);
        } else {
            lemma_step_mag_driving(n, i);
            lemma_step_mag_driving(n, i + 1);
        }
    } else if mag(b.y - a.y) == n {
        lemma_step_mag_driving(n, i);
        lemma_step_mag_driving(n, i + 1);
    } else {
        lemma_step_mag_driving(n, i);
        lemma_step_mag_driving(n, i + 1);
    }
}

/// A line whose endpoints coincide is a single point.
pub proof fn lemma_line_degenerate(a: LatticePoint)
    requires
        lattice_within(a, LATTICE_LIMIT as int),
    ensures
        line_seq(a, a) =~= seq![a],
{
    lemma_walk_first(a, a);
}

/// Swapping the endpoints of a line reverses it: the two directions hold
/// exactly the same points, in opposite order.
pub proof fn lemma_line_symmetric(a: LatticePoint, b: LatticePoint)
    requires
        lattice_within(a, LATTICE_LIMIT as int),
        lattice_within(b, LATTICE_LIMIT as int),
    ensures
        line_seq(b, a) =~= line_seq(a, b).reverse(),
{
    if lex_le(a, b) && lex_le(b, a) {
        assert(a == b);
        lemma_line_degenerate(a);
        assert(line_seq(a, a).reverse() =~= line_seq(a, a));
    } else if lex_le(a, b) {
        assert(line_seq(a, b) == walk_seq(a, b));
        assert(line_seq(b, a) == walk_seq(a, b).reverse());
    } else {
        assert(line_seq(a, b) == walk_seq(b, a).reverse());
        assert(line_seq(b, a) == walk_seq(b, a));
        assert(walk_seq(b, a).reverse().reverse() =~= walk_seq(b, a));
    }
}

/// The endpoints of a line are the rounded endpoints it was called with, and
/// its length is one more than their Chebyshev distance.
pub proof fn lemma_line_endpoints(a: LatticePoint, b: LatticePoint)
    requires
        lattice_within(a, LATTICE_LIMIT as int),
        lattice_within(b, LATTICE_LIMIT as int),
    ensures
        line_seq(a, b).len() == cheb(a, b) + 1,
        line_seq(a, b)[0] == a,
        line_seq(a, b).last() == b,
{
    if lex_le(a, b) {
        lemma_walk_first(a, b);
        lemma_walk_last(a, b);
    } else {
        lemma_walk_first(b, a);
        lemma_walk_last(b, a);
        assert(cheb(a, b) == cheb(b, a));
        assert(line_seq(a, b)[0] == walk_seq(b, a).last());
        assert(line_seq(a, b).last() == walk_seq(b, a)[0]);
    }
}

/// Every point of a line stays inside the bounding box of its endpoints.
pub proof fn lemma_line_in_box(a: LatticePoint, b: LatticePoint, i: int)
    requires
        lattice_within(a, LATTICE_LIMIT as int),
        lattice_within(b, LATTICE_LIMIT as int),
        0 <= i < line_seq(a, b).len(),
    ensures
        pick_min(a.x as int, b.x as int) <= line_seq(a, b)[i].x <= pick_max(a.x as int, b.x as int),
        pick_min(a.y as int, b.y as int) <= line_seq(a, b)[i].y <= pick_max(a.y as int, b.y as int),
        pick_min(a.z as int, b.z as int) <= line_seq(a, b)[i].z <= pick_max(a.z as int, b.z as int),
{
    if lex_le(a, b) {
        lemma_walk_in_box(a, b, i);
    } else {
        lemma_walk_in_box(b, a, cheb(b, a) - i);
    }
}

/// Largest raw fixed-point coordinate magnitude the rasterizer accepts: the
/// rounded endpoints then stay within `LATTICE_LIMIT`.
pub const RASTER_LIMIT: i64 = LATTICE_LIMIT * FX_ONE;

/// The lattice point nearest to `v` (componentwise, ties away from zero).
pub open spec fn round_lattice(v: Vec3) -> LatticePoint {
    LatticePoint {
        x: fx_round_spec(v.x.raw as int) as i64,
        y: fx_round_spec(v.y.raw as int) as i64,
        z: fx_round_spec(v.z.raw as int) as i64,
    }
}

/// The fixed-point vector holding the lattice point `p` exactly.
pub open spec fn lattice_vec3(p: LatticePoint) -> Vec3 {
    Vec3 {
        x: Fx { raw: (p.x * FX_ONE) as i64 },
        y: Fx { raw: (p.y * FX_ONE) as i64 },
        z: Fx { raw: (p.z * FX_ONE) as i64 },
    }
}

/// Lattice points tagged with a color, as `set_line` returns them.
pub open spec fn colored(s: Seq<LatticePoint>, color: Color) -> Seq<(Vec3, Color)> {
    s.map_values(|p: LatticePoint| (lattice_vec3(p), color))
}

/// What `set_line` returns: the lattice line between the rounded endpoints,
/// tagged with the color.
pub open spec fn set_line_seq(start: Vec3, end: Vec3, color: Color) -> Seq<(Vec3, Color)> {
    colored(line_seq(round_lattice(start), round_lattice(end)), color)
}

/// Rounding keeps a value within any whole bound that holds for the value.
proof fn lemma_fx_round_range(raw: int, m: int)
    requires
        0 <= m,
        -m * FX_ONE <= raw <= m * FX_ONE,
    ensures
        -m <= fx_round_spec(raw) <= m,
{
    if raw >= 0 {
        lemma_div_pos_is_pos(raw + FX_ONE / 2, FX_ONE as int);
        lemma_div_is_ordered(raw + FX_ONE / 2, m * FX_ONE + FX_ONE / 2, FX_ONE as int);
        lemma_fundamental_div_mod_converse_div(
            m * FX_ONE + FX_ONE / 2,
            FX_ONE as int,
            m,
            FX_ONE as int / 2,
        );
    } else {
        lemma_div_pos_is_pos(-raw + FX_ONE / 2, FX_ONE as int);
        lemma_div_is_ordered(-raw + FX_ONE / 2, m * FX_ONE + FX_ONE / 2, FX_ONE as int);
        lemma_fundamental_div_mod_converse_div(
            m * FX_ONE + FX_ONE / 2,
            FX_ONE as int,
            m,
            FX_ONE as int / 2,
        );
    }
}

/// Rounding a value that holds a whole number exactly gives that number back.
proof fn lemma_fx_round_exact(k: int)
    ensures
        fx_round_spec(k * FX_ONE) == k,
{
    if k >= 0 {
        lemma_fundamental_div_mod_converse_div(
            k * FX_ONE + FX_ONE / 2,
            FX_ONE as int,
            k,
            FX_ONE as int / 2,
        );
    } else {
        lemma_fundamental_div_mod_converse_div(
            -(k * FX_ONE) + FX_ONE / 2,
            FX_ONE as int,
            -k,
            FX_ONE as int / 2,
        );
    }
}

/// The signed offset of one axis after `i` of `n` steps.
fn step_exec(d: i64, ad: i64, n: i64, i: i64) -> (o: i64)
    requires
        1 <= n <= 2 * LATTICE_LIMIT,
        ad == mag(d as int),
        ad <= n,
        0 <= i <= n,
    ensures
        o == step_off(d as int, n as int, i as int),
        pick_min(0, d as int) <= o <= pick_max(0, d as int),
{
    proof {
        assert(2 * (i as int) * (ad as int) <= 2 * (2 * LATTICE_LIMIT as int) * (2
            * LATTICE_LIMIT as int)) by (nonlinear_arith)
            requires
                0 <= i as int <= 2 * LATTICE_LIMIT as int,
                0 <= ad as int <= 2 * LATTICE_LIMIT as int,
        ;
        lemma_step_mag_bounds(ad as int, n as int, i as int);
    }
    let num: u128 = 2 * (i as u128) * (ad as u128) + (n as u128);
    let u: i64 = (num / (2 * (n as u128))) as i64;
    if d >= 0 {
        u
    } else {
        -u
    }
}

/// The walk from `a` to `b`: every lattice point of the segment, starting at
/// `a` and ending at `b`.
fn walk(a: LatticePoint, b: LatticePoint) -> (pts: Vec<LatticePoint>)
    requires
        lattice_within(a, LATTICE_LIMIT as int),
        lattice_within(b, LATTICE_LIMIT as int),
    ensures
        pts@ == walk_seq(a, b),
{
    let dx = b.x - a.x;
    let dy = b.y - a.y;
    let dz = b.z - a.z;
    let adx = if dx >= 0 {
        dx
    } else {
        -dx
    };
    let ady = if dy >= 0 {
        dy
    } else {
        -dy
    };
    let adz = if dz >= 0 {
        dz
    } else {
        -dz
    };
    let n = if adx >= ady && adx >= adz {
        adx
    } else if ady >= adz {
        ady
    } else {
        adz
    };
    assert(n as int == cheb(a, b));
    let mut pts: Vec<LatticePoint> = Vec::new();
    if n == 0 {
        pts.push(a);
        proof {
            lemma_walk_first(a, b);
            assert(pts@ =~= walk_seq(a, b));
        }
        return pts;
    }
    let mut i: i64 = 0;
    while i <= n
        invariant
            lattice_within(a, LATTICE_LIMIT as int),
            lattice_within(b, LATTICE_LIMIT as int),
            1 <= n <= 2 * LATTICE_LIMIT,
            n as int == cheb(a, b),
            dx as int == b.x - a.x && dy as int == b.y - a.y && dz as int == b.z - a.z,
            adx as int == mag(dx as int) && ady as int == mag(dy as int) && adz as int == mag(
                dz as int,
            ),
            adx <= n && ady <= n && adz <= n,
            0 <= i <= n + 1,
            pts@.len() == i,
            forall|j: int| 0 <= j < i ==> pts@[j] == walk_point(a, b, j),
        decreases n - i + 1,
    {
        let ox = step_exec(dx, adx, n, i);
        let oy = step_exec(dy, ady, n, i);
        let oz = step_exec(dz, adz, n, i);
        pts.push(LatticePoint { x: a.x + ox, y: a.y + oy, z: a.z + oz });
        i = i + 1;
    }
    proof {
        assert(pts@ =~= walk_seq(a, b));
    }
    pts
}

/// Whether `a` comes no later than `b` in lexicographic order.
fn lex_le_exec(a: LatticePoint, b: LatticePoint) -> (r: bool)
    ensures
        r == lex_le(a, b),
{
    a.x < b.x || (a.x == b.x && (a.y < b.y || (a.y == b.y && a.z <= b.z)))
}

/// The lattice line from `a` to `b`, both endpoints included. Computed from
/// the lexicographically smaller endpoint so that swapping `a` and `b` yields
/// exactly the reversed sequence.
pub fn lattice_line(a: LatticePoint, b: LatticePoint) -> (pts: Vec<LatticePoint>)
    requires
        lattice_within(a, LATTICE_LIMIT as int),
        lattice_within(b, LATTICE_LIMIT as int),
    ensures
        pts@ == line_seq(a, b),
{
    if lex_le_exec(a, b) {
        walk(a, b)
    } else {
        let w = walk(b, a);
        let mut pts: Vec<LatticePoint> = Vec::new();
        let mut i: usize = w.len();
        while i > 0
            invariant
                i <= w@.len(),
                pts@.len() + i == w@.len(),
                forall|j: int| 0 <= j < pts@.len() ==> pts@[j] == w@[w@.len() - 1 - j],
            decreases i,
        {
            i = i - 1;
            pts.push(w[i]);
        }
        proof {
            assert(pts@ =~= w@.reverse());
        }
        pts
    }
}

/// The lattice point nearest to `v`.
fn round_vec(v: Vec3) -> (p: LatticePoint)
    requires
        vec3_within(v, RASTER_LIMIT as int),
    ensures
        p == round_lattice(v),
        lattice_within(p, LATTICE_LIMIT as int),
{
    proof {
        lemma_fx_round_range(v.x.raw as int, LATTICE_LIMIT as int);
        lemma_fx_round_range(v.y.raw as int, LATTICE_LIMIT as int);
        lemma_fx_round_range(v.z.raw as int, LATTICE_LIMIT as int);
    }
    LatticePoint { x: v.x.round(), y: v.y.round(), z: v.z.round() }
}

/// Rounds both endpoints to the lattice and enumerates every lattice point of
/// the connecting segment, start to end inclusive, each tagged with the color.
/// A degenerate segment yields a single point; swapping the endpoints yields
/// the same points in reverse order.
pub fn set_line(start: Vec3, end: Vec3, color: Color) -> (pts: Vec<(Vec3, Color)>)
    requires
        vec3_within(start, RASTER_LIMIT as int),
        vec3_within(end, RASTER_LIMIT as int),
    ensures
        pts@ == set_line_seq(start, end, color),
{
    let a = round_vec(start);
    let b = round_vec(end);
    let lat = lattice_line(a, b);
    let mut pts: Vec<(Vec3, Color)> = Vec::new();
    let mut i: usize = 0;
    while i < lat.len()
        invariant
            lattice_within(a, LATTICE_LIMIT as int),
            lattice_within(b, LATTICE_LIMIT as int),
            lat@ == line_seq(a, b),
            i <= lat@.len(),
            pts@.len() == i,
            forall|j: int| 0 <= j < i ==> pts@[j] == (lattice_vec3(lat@[j]), color),
        decreases lat@.len() - i,
    {
        let p = lat[i];
        proof {
            lemma_line_in_box(a, b, i as int);
        }
        pts.push((Vec3::from_ints(p.x, p.y, p.z), color));
        i = i + 1;
    }
    proof {
        assert(pts@ =~= set_line_seq(start, end, color));
    }
    pts
}

/// `v` with its `y` coordinate replaced by the whole number `y`.
pub open spec fn row_at_y(v: Vec3, y: int) -> Vec3 {
    Vec3 { x: v.x, y: Fx { raw: (y * FX_ONE) as i64 }, z: v.z }
}

/// `v` with its `x` coordinate replaced by the whole number `x`.
pub open spec fn row_at_x(v: Vec3, x: int) -> Vec3 {
    Vec3 { x: Fx { raw: (x * FX_ONE) as i64 }, y: v.y, z: v.z }
}

/// The first `cnt` sweep lines of a vertical fill, lowest `y` first.
pub open spec fn fill_vertical_rows(
    start: Vec3,
    end: Vec3,
    color: Color,
    lo: int,
    cnt: nat,
) -> Seq<(Vec3, Color)>
    decreases cnt,
{
    if cnt == 0 {
        Seq::empty()
    } else {
        fill_vertical_rows(start, end, color, lo, (cnt - 1) as nat) + set_line_seq(
            row_at_y(start, lo + cnt - 1),
            row_at_y(end, lo + cnt - 1),
            color,
        )
    }
}

/// What `fill_vertical` returns: one line per whole `y` between the rounded
/// `y` coordinates of the endpoints, inclusive.
pub open spec fn fill_vertical_seq(start: Vec3, end: Vec3, color: Color) -> Seq<(Vec3, Color)> {
    let ys = fx_round_spec(start.y.raw as int);
    let ye = fx_round_spec(end.y.raw as int);
    fill_vertical_rows(
        start,
        end,
        color,
        pick_min(ys, ye),
        (pick_max(ys, ye) - pick_min(ys, ye) + 1) as nat,
    )
}

/// The first `cnt` sweep lines of a horizontal fill, lowest `x` first.
pub open spec fn fill_horizontal_rows(
    start: Vec3,
    end: Vec3,
    color: Color,
    lo: int,
    cnt: nat,
) -> Seq<(Vec3, Color)>
    decreases cnt,
{
    if cnt == 0 {
        Seq::empty()
    } else {
        fill_horizontal_rows(start, end, color, lo, (cnt - 1) as nat) + set_line_seq(
            row_at_x(start, lo + cnt - 1),
            row_at_x(end, lo + cnt - 1),
            color,
        )
    }
}

/// What `fill_horizontal` returns: one line per whole `x` between the rounded
/// `x` coordinates of the endpoints, inclusive.
pub open spec fn fill_horizontal_seq(start: Vec3, end: Vec3, color: Color) -> Seq<(Vec3, Color)> {
    let xs = fx_round_spec(start.x.raw as int);
    let xe = fx_round_spec(end.x.raw as int);
    fill_horizontal_rows(
        start,
        end,
        color,
        pick_min(xs, xe),
        (pick_max(xs, xe) - pick_min(xs, xe) + 1) as nat,
    )
}

/// Sweeps every whole `y` between the endpoints' rounded `y` coordinates;
/// for each, rasterizes the line between the endpoints with that `y`
/// substituted, and concatenates the results (overlapping points repeat).
pub fn fill_vertical(start: Vec3, end: Vec3, color: Color) -> (pts: Vec<(Vec3, Color)>)
    requires
        vec3_within(start, RASTER_LIMIT as int),
        vec3_within(end, RASTER_LIMIT as int),
    ensures
        pts@ == fill_vertical_seq(start, end, color),
{
    proof {
        lemma_fx_round_range(start.y.raw as int, LATTICE_LIMIT as int);
        lemma_fx_round_range(end.y.raw as int, LATTICE_LIMIT as int);
    }
    let ys = start.y.round();
    let ye = end.y.round();
    let (lo, hi) = if ys > ye {
        (ye, ys)
    } else {
        (ys, ye)
    };
    let mut pts: Vec<(Vec3, Color)> = Vec::new();
    let mut y: i64 = lo;
    while y <= hi
        invariant
            vec3_within(start, RASTER_LIMIT as int),
            vec3_within(end, RASTER_LIMIT as int),
            -LATTICE_LIMIT <= lo <= hi <= LATTICE_LIMIT,
            lo as int == pick_min(
                fx_round_spec(start.y.raw as int),
                fx_round_spec(end.y.raw as int),
            ),
            hi as int == pick_max(
                fx_round_spec(start.y.raw as int),
                fx_round_spec(end.y.raw as int),
            ),
            lo <= y <= hi + 1,
            pts@ == fill_vertical_rows(start, end, color, lo as int, (y - lo) as nat),
        decreases hi - y + 1,
    {
        let yf = Fx::from_int(y);
        let linestart = Vec3 { x: start.x, y: yf, z: start.z };
        let lineend = Vec3 { x: end.x, y: yf, z: end.z };
        let mut seg = set_line(linestart, lineend, color);
        pts.append(&mut seg);
        y = y + 1;
    }
    pts
}

/// Sweeps every whole `x` between the endpoints' rounded `x` coordinates;
/// for each, rasterizes the line between the endpoints with that `x`
/// substituted, and concatenates the results (overlapping points repeat).
pub fn fill_horizontal(start: Vec3, end: Vec3, color: Color) -> (pts: Vec<(Vec3, Color)>)
    requires
        vec3_within(start, RASTER_LIMIT as int),
        vec3_within(end, RASTER_LIMIT as int),
    ensures
        pts@ == fill_horizontal_seq(start, end, color),
{
    proof {
        lemma_fx_round_range(start.x.raw as int, LATTICE_LIMIT as int);
        lemma_fx_round_range(end.x.raw as int, LATTICE_LIMIT as int);
    }
    let xs = start.x.round();
    let xe = end.x.round();
    let (lo, hi) = if xs > xe {
        (xe, xs)
    } else {
        (xs, xe)
    };
    let mut pts: Vec<(Vec3, Color)> = Vec::new();
    let mut x: i64 = lo;
    while x <= hi
        invariant
            vec3_within(start, RASTER_LIMIT as int),
            vec3_within(end, RASTER_LIMIT as int),
            -LATTICE_LIMIT <= lo <= hi <= LATTICE_LIMIT,
            lo as int == pick_min(
                fx_round_spec(start.x.raw as int),
                fx_round_spec(end.x.raw as int),
            ),
            hi as int == pick_max(
                fx_round_spec(start.x.raw as int),
                fx_round_spec(end.x.raw as int),
            ),
            lo <= x <= hi + 1,
            pts@ == fill_horizontal_rows(start, end, color, lo as int, (x - lo) as nat),
        decreases hi - x + 1,
    {
        let xf = Fx::from_int(x);
        let linestart = Vec3 { x: xf, y: start.y, z: start.z };
        let lineend = Vec3 { x: xf, y: end.y, z: end.z };
        let mut seg = set_line(linestart, lineend, color);
        pts.append(&mut seg);
        x = x + 1;
    }
    pts
}

/// Every point of a line stays within any whole coordinate bound that holds
/// for its endpoints.
pub proof fn lemma_set_line_seq_bounded(start: Vec3, end: Vec3, color: Color, m: int)
    requires
        1 <= m <= LATTICE_LIMIT,
        vec3_within(start, m * FX_ONE),
        vec3_within(end, m * FX_ONE),
    ensures
        forall|i: int|
            0 <= i < set_line_seq(start, end, color).len() ==> (vec3_within(
                #[trigger] set_line_seq(start, end, color)[i].0,
                m * FX_ONE,
            ) && set_line_seq(start, end, color)[i].1 == color),
{
    lemma_fx_round_range(start.x.raw as int, m);
    lemma_fx_round_range(start.y.raw as int, m);
    lemma_fx_round_range(start.z.raw as int, m);
    lemma_fx_round_range(end.x.raw as int, m);
    lemma_fx_round_range(end.y.raw as int, m);
    lemma_fx_round_range(end.z.raw as int, m);
    let la = round_lattice(start);
    let lb = round_lattice(end);
    assert forall|i: int| 0 <= i < set_line_seq(start, end, color).len() implies (vec3_within(
        #[trigger] set_line_seq(start, end, color)[i].0,
        m * FX_ONE,
    ) && set_line_seq(start, end, color)[i].1 == color) by {
        lemma_line_in_box(la, lb, i);
    }
}

/// Every point of a vertical fill's first `cnt` rows stays within any whole
/// coordinate bound that holds for its endpoints and sweep range.
proof fn lemma_fill_vertical_rows_bounded(
    start: Vec3,
    end: Vec3,
    color: Color,
    lo: int,
    cnt: nat,
    m: int,
)
    requires
        1 <= m <= LATTICE_LIMIT,
        vec3_within(start, m * FX_ONE),
        vec3_within(end, m * FX_ONE),
        -m <= lo,
        lo + cnt <= m + 1,
    ensures
        forall|i: int|
            0 <= i < fill_vertical_rows(start, end, color, lo, cnt).len() ==> (vec3_within(
                #[trigger] fill_vertical_rows(start, end, color, lo, cnt)[i].0,
                m * FX_ONE,
            ) && fill_vertical_rows(start, end, color, lo, cnt)[i].1 == color),
    decreases cnt,
{
    if cnt > 0 {
        lemma_fill_vertical_rows_bounded(start, end, color, lo, (cnt - 1) as nat, m);
        let y = lo + cnt - 1;
        lemma_set_line_seq_bounded(row_at_y(start, y), row_at_y(end, y), color, m);
        let prev = fill_vertical_rows(start, end, color, lo, (cnt - 1) as nat);
        let row = set_line_seq(row_at_y(start, y), row_at_y(end, y), color);
        assert forall|i: int|
            0 <= i < fill_vertical_rows(start, end, color, lo, cnt).len() implies (vec3_within(
            #[trigger] fill_vertical_rows(start, end, color, lo, cnt)[i].0,
            m * FX_ONE,
        ) && fill_vertical_rows(start, end, color, lo, cnt)[i].1 == color) by {
            if i < prev.len() {
                assert(fill_vertical_rows(start, end, color, lo, cnt)[i] == prev[i]);
            } else {
                assert(fill_vertical_rows(start, end, color, lo, cnt)[i] == row[i - prev.len()]);
            }
        }
    }
}

/// Every point of a vertical fill stays within any whole coordinate bound
/// that holds for its endpoints.
pub proof fn lemma_fill_vertical_seq_bounded(start: Vec3, end: Vec3, color: Color, m: int)
    requires
        1 <= m <= LATTICE_LIMIT,
        vec3_within(start, m * FX_ONE),
        vec3_within(end, m * FX_ONE),
    ensures
        forall|i: int|
            0 <= i < fill_vertical_seq(start, end, color).len() ==> (vec3_within(
                #[trigger] fill_vertical_seq(start, end, color)[i].0,
                m * FX_ONE,
            ) && fill_vertical_seq(start, end, color)[i].1 == color),
{
    lemma_fx_round_range(start.y.raw as int, m);
    lemma_fx_round_range(end.y.raw as int, m);
    let ys = fx_round_spec(start.y.raw as int);
    let ye = fx_round_spec(end.y.raw as int);
    lemma_fill_vertical_rows_bounded(
        start,
        end,
        color,
        pick_min(ys, ye),
        (pick_max(ys, ye) - pick_min(ys, ye) + 1) as nat,
        m,
    );
}

/// Every point of a horizontal fill's first `cnt` rows stays within any whole
/// coordinate bound that holds for its endpoints and sweep range.
proof fn lemma_fill_horizontal_rows_bounded(
    start: Vec3,
    end: Vec3,
    color: Color,
    lo: int,
    cnt: nat,
    m: int,
)
    requires
        1 <= m <= LATTICE_LIMIT,
        vec3_within(start, m * FX_ONE),
        vec3_within(end, m * FX_ONE),
        -m <= lo,
        lo + cnt <= m + 1,
    ensures
        forall|i: int|
            0 <= i < fill_horizontal_rows(start, end, color, lo, cnt).len() ==> (vec3_within(
                #[trigger] fill_horizontal_rows(start, end, color, lo, cnt)[i].0,
                m * FX_ONE,
            ) && fill_horizontal_rows(start, end, color, lo, cnt)[i].1 == color),
    decreases cnt,
{
    if cnt > 0 {
        lemma_fill_horizontal_rows_bounded(start, end, color, lo, (cnt - 1) as nat, m);
        let x = lo + cnt - 1;
        lemma_set_line_seq_bounded(row_at_x(start, x), row_at_x(end, x), color, m);
        let prev = fill_horizontal_rows(start, end, color, lo, (cnt - 1) as nat);
        let row = set_line_seq(row_at_x(start, x), row_at_x(end, x), color);
        assert forall|i: int|
            0 <= i < fill_horizontal_rows(start, end, color, lo, cnt).len() implies (vec3_within(
            #[trigger] fill_horizontal_rows(start, end, color, lo, cnt)[i].0,
            m * FX_ONE,
        ) && fill_horizontal_rows(start, end, color, lo, cnt)[i].1 == color) by {
            if i < prev.len() {
                assert(fill_horizontal_rows(start, end, color, lo, cnt)[i] == prev[i]);
            } else {
                assert(fill_horizontal_rows(start, end, color, lo, cnt)[i] == row[i - prev.len()]);
            }
        }
    }
}

/// Every point of a horizontal fill stays within any whole coordinate bound
/// that holds for its endpoints.
pub proof fn lemma_fill_horizontal_seq_bounded(start: Vec3, end: Vec3, color: Color, m: int)
    requires
        1 <= m <= LATTICE_LIMIT,
        vec3_within(start, m * FX_ONE),
        vec3_within(end, m * FX_ONE),
    ensures
        forall|i: int|
            0 <= i < fill_horizontal_seq(start, end, color).len() ==> (vec3_within(
                #[trigger] fill_horizontal_seq(start, end, color)[i].0,
                m * FX_ONE,
            ) && fill_horizontal_seq(start, end, color)[i].1 == color),
{
    lemma_fx_round_range(start.x.raw as int, m);
    lemma_fx_round_range(end.x.raw as int, m);
    let xs = fx_round_spec(start.x.raw as int);
    let xe = fx_round_spec(end.x.raw as int);
    lemma_fill_horizontal_rows_bounded(
        start,
        end,
        color,
        pick_min(xs, xe),
        (pick_max(xs, xe) - pick_min(xs, xe) + 1) as nat,
        m,
    );
}

/// A line whose endpoints round to the same lattice point holds exactly one
/// point: that lattice point.
pub proof fn lemma_set_line_degenerate(p: Vec3, color: Color)
    requires
        vec3_within(p, RASTER_LIMIT as int),
    ensures
        set_line_seq(p, p, color).len() == 1,
        set_line_seq(p, p, color)[0] == (lattice_vec3(round_lattice(p)), color),
{
    lemma_fx_round_range(p.x.raw as int, LATTICE_LIMIT as int);
    lemma_fx_round_range(p.y.raw as int, LATTICE_LIMIT as int);
    lemma_fx_round_range(p.z.raw as int, LATTICE_LIMIT as int);
    lemma_line_degenerate(round_lattice(p));
}

/// Swapping the endpoints of `set_line` yields exactly the same points in
/// reverse order.
pub proof fn lemma_set_line_symmetric(a: Vec3, b: Vec3, color: Color)
    requires
        vec3_within(a, RASTER_LIMIT as int),
        vec3_within(b, RASTER_LIMIT as int),
    ensures
        set_line_seq(b, a, color) =~= set_line_seq(a, b, color).reverse(),
{
    lemma_fx_round_range(a.x.raw as int, LATTICE_LIMIT as int);
    lemma_fx_round_range(a.y.raw as int, LATTICE_LIMIT as int);
    lemma_fx_round_range(a.z.raw as int, LATTICE_LIMIT as int);
    lemma_fx_round_range(b.x.raw as int, LATTICE_LIMIT as int);
    lemma_fx_round_range(b.y.raw as int, LATTICE_LIMIT as int);
    lemma_fx_round_range(b.z.raw as int, LATTICE_LIMIT as int);
    let la = round_lattice(a);
    let lb = round_lattice(b);
    lemma_line_symmetric(la, lb);
}

/// A vertical fill whose endpoints share their `y` coordinate reduces to
/// exactly the line between them.
pub proof fn lemma_fill_vertical_line(start: Vec3, end: Vec3, color: Color)
    requires
        vec3_within(start, RASTER_LIMIT as int),
        vec3_within(end, RASTER_LIMIT as int),
        start.y == end.y,
    ensures
        fill_vertical_seq(start, end, color) =~= set_line_seq(start, end, color),
{
    lemma_fx_round_range(start.y.raw as int, LATTICE_LIMIT as int);
    let ys = fx_round_spec(start.y.raw as int);
    lemma_fx_round_exact(ys);
    assert(fill_vertical_rows(start, end, color, ys, 0) == Seq::<(Vec3, Color)>::empty());
    assert(fill_vertical_seq(start, end, color) == Seq::<(Vec3, Color)>::empty() + set_line_seq(
        row_at_y(start, ys),
        row_at_y(end, ys),
        color,
    ));
    assert(round_lattice(row_at_y(start, ys)) == round_lattice(start));
    assert(round_lattice(row_at_y(end, ys)) == round_lattice(end));
    assert(fill_vertical_seq(start, end, color) =~= set_line_seq(
        row_at_y(start, ys),
        row_at_y(end, ys),
        color,
    ));
}

} // verus!

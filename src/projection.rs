//! Turning sampled hits into screen strips: view distance, height,
//! vertical placement and texture coordinates.

use vstd::prelude::*;
use crate::geometry::{Point, ONE, dir_ok, floor_div, div_floor};
use crate::board::{Cell, Color, Texture};
use crate::player::Player;
use crate::fov::Sample;

verus! {

/// The exact fraction `num / den`, with `den > 0` wherever one is built here.
#[derive(Clone, Copy, Debug, PartialEq, Eq, Structural)]
pub struct Ratio {
    pub num: i128,
    pub den: i128,
}

/// `a < b` as fractions with positive denominators.
pub open spec fn ratio_lt(a: Ratio, b: Ratio) -> bool {
    a.num * b.den < b.num * a.den
}

/// A part of a texture, in texels.
#[derive(Clone, Copy, Debug, PartialEq, Eq, Structural)]
pub struct TextureRegion {
    pub x: i64,
    pub y: i64,
    pub width: i64,
    pub height: i64,
}

/// How a strip is filled.
#[derive(Clone, Copy, Debug, PartialEq, Eq, Structural)]
pub enum Paint {
    Flat(Color),
    Textured(Texture, TextureRegion),
}

/// One vertical strip of a screen column: column index, distance (for fog),
/// top and height in column widths, and its fill.
#[derive(Clone, Copy, Debug, PartialEq, Eq, Structural)]
pub struct Strip {
    pub column: usize,
    pub dist: i128,
    pub top: Ratio,
    pub height: Ratio,
    pub paint: Paint,
}

/// Distance of `q` from the player along the facing direction (the view
/// axis), in units: no fish-eye bulge at the screen's edges.
pub open spec fn perp_dist(p: Player, q: Point) -> int {
    floor_div((q.x - p.pos.x) * p.dir.x + (q.y - p.pos.y) * p.dir.y, ONE as int)
}

/// Height of a wall at distance `d` on a viewport `vw` columns wide:
/// `vw / (2 * d)` with `d` in cells.
pub open spec fn height_of(vw: int, d: int) -> Ratio {
    Ratio { num: (vw * ONE) as i128, den: (2 * d) as i128 }
}

/// Top of a strip of height `h`, centred on a viewport `vh` high:
/// `(vh - h) / 2`.
pub open spec fn top_of(vh: int, h: Ratio) -> Ratio {
    Ratio { num: (vh * h.den - h.num) as i128, den: (2 * h.den) as i128 }
}

/// Fractional part of a coordinate, in units.
pub open spec fn frac(v: int) -> int {
    v % (ONE as int)
}

/// The texture column sampled at hit `p`: where the hit lies on a
/// horizontal grid line the texture runs along x, elsewhere along y.
pub open spec fn region_of(p: Point, t: Texture) -> TextureRegion {
    let nx = frac(p.x as int);
    let ny = frac(p.y as int);
    if ny == 0 {
        TextureRegion {
            x: floor_div(t.width * nx, ONE as int) as i64,
            y: 0,
            width: 1,
            height: t.height as i64,
        }
    } else {
        TextureRegion {
            x: floor_div(t.width * ny, ONE as int) as i64,
            y: floor_div(t.height * nx, ONE as int) as i64,
            width: 1,
            height: t.height as i64,
        }
    }
}

/// A strip of screen column `column` for a hit at view distance `d`.
pub open spec fn strip_at(vw: int, vh: int, column: int, d: int, paint: Paint) -> Strip {
    Strip {
        column: column as usize,
        dist: d as i128,
        top: top_of(vh, height_of(vw, d)),
        height: height_of(vw, d),
        paint,
    }
}

/// The view distance a strip is drawn at: the distance along the view
/// axis, but at least one unit, so that a hit at or behind the camera
/// plane (a wall the player touches) gets the tallest strip there is.
pub open spec fn strip_dist(p: Player, q: Point) -> int {
    if perp_dist(p, q) <= 0 {
        1
    } else {
        perp_dist(p, q)
    }
}

/// The strip drawn for sample `s` in screen column `column`: one for every
/// cell that is not empty, none for an empty one.
pub open spec fn strip_of(p: Player, vw: int, vh: int, column: int, s: Sample) -> Option<Strip> {
    let d = strip_dist(p, s.1);
    match s.0 {
        Cell::Empty => None,
        Cell::SolidColor(c) => Some(strip_at(vw, vh, column, d, Paint::Flat(c))),
        Cell::OpaqueTexture(t) => Some(
            strip_at(vw, vh, column, d, Paint::Textured(t, region_of(s.1, t))),
        ),
        Cell::TranslucentTexture(t) => Some(
            strip_at(vw, vh, column, d, Paint::Textured(t, region_of(s.1, t))),
        ),
    }
}

/// The strips of a column's samples, farthest first, so that nearer ones
/// are drawn over farther ones.
pub open spec fn strips_of(p: Player, vw: int, vh: int, column: int, s: Seq<Sample>) -> Seq<Strip>
    decreases s.len(),
{
    if s.len() == 0 {
        Seq::empty()
    } else {
        let rest = strips_of(p, vw, vh, column, s.subrange(1, s.len() as int));
        match strip_of(p, vw, vh, column, s[0]) {
            Some(st) => rest.push(st),
            None => rest,
        }
    }
}

/// The farther the hit, the shorter its strip: for `0 < d1 < d2` the height
/// at `d2` is strictly below the height at `d1`, and both are positive
/// fractions (finite, with a positive denominator).
pub proof fn lemma_height_decreasing(vw: int, d1: int, d2: int)
    requires
        0 < vw <= 0x1_0000_0000,
        0 < d1 < d2 <= 0x1000_0000_0000_0000_0000_0000,
    ensures
        ratio_lt(height_of(vw, d2), height_of(vw, d1)),
        height_of(vw, d1).den > 0 && height_of(vw, d1).num > 0,
        height_of(vw, d2).den > 0 && height_of(vw, d2).num > 0,
{
    let n = vw * ONE;
    assert(0 < n <= 0x1_0000_0000 * 65536) by (nonlinear_arith)
        requires
            0 < vw <= 0x1_0000_0000,
            n == vw * 65536,
    ;
    assert(n * (2 * d1) < n * (2 * d2)) by (nonlinear_arith)
        requires
            0 < n,
            0 < d1 < d2,
    ;
}

/// How many samples hold a cell that is not empty.
pub open spec fn non_empty_count(s: Seq<Sample>) -> nat
    decreases s.len(),
{
    if s.len() == 0 {
        0
    } else {
        non_empty_count(s.subrange(1, s.len() as int)) + if s[0].0 is Empty {
            0nat
        } else {
            1nat
        }
    }
}

/// A column gets exactly one strip for each sample whose cell is not empty,
/// whatever its distance.
pub proof fn lemma_one_strip_per_hit(p: Player, vw: int, vh: int, column: int, s: Seq<Sample>)
    ensures
        strips_of(p, vw, vh, column, s).len() == non_empty_count(s),
    decreases s.len(),
{
    if s.len() > 0 {
        lemma_one_strip_per_hit(p, vw, vh, column, s.subrange(1, s.len() as int));
    }
}

/// Distance of `q` from the player along the view axis.
pub fn perpendicular_distance(player: &Player, q: Point) -> (d: i128)
    requires
        dir_ok(player.dir),
    ensures
        d == perp_dist(*player, q),
{
    let ex = q.x as i128 - player.pos.x as i128;
    let ey = q.y as i128 - player.pos.y as i128;
    proof {
        crate::geometry::lemma_mul_abs_le(ex as int, player.dir.x as int, 0x2_0000_0000_0000_0000, 1048576);
        crate::geometry::lemma_mul_abs_le(ey as int, player.dir.y as int, 0x2_0000_0000_0000_0000, 1048576);
    }
    div_floor(ex * player.dir.x as i128 + ey * player.dir.y as i128, ONE as i128)
}

/// Height of a wall strip at view distance `dist` (in units, positive) on
/// a viewport `vw` columns wide and `vh` high: `(vh / d) / (2 * vh / vw)`,
/// that is `vw / (2 * d)` with `d` in cells.
pub fn column_height(vw: u32, vh: u32, dist: i128) -> (h: Ratio)
    requires
        vh > 0,
        0 < dist <= 0x1000_0000_0000_0000_0000_0000,
    ensures
        h == height_of(vw as int, dist as int),
        0 < h.den <= 0x2000_0000_0000_0000_0000_0000,
        0 <= h.num <= 0x1_0000_0000_0000_0000,
{
    assert(vw * ONE <= 0x1_0000_0000 * 65536) by (nonlinear_arith)
        requires
            0 <= vw <= 0x1_0000_0000,
    ;
    Ratio { num: vw as i128 * ONE as i128, den: 2 * dist }
}

/// Top of a strip of height `h` centred on a viewport `vh` high.
pub fn column_top(vh: u32, h: Ratio) -> (top: Ratio)
    requires
        0 < h.den <= 0x2000_0000_0000_0000_0000_0000,
        0 <= h.num <= 0x1_0000_0000_0000_0000,
    ensures
        top == top_of(vh as int, h),
{
    proof {
        assert(vh * h.den <= 0x1_0000_0000 * 0x2000_0000_0000_0000_0000_0000) by (nonlinear_arith)
            requires
                0 <= vh <= 0x1_0000_0000,
                0 < h.den <= 0x2000_0000_0000_0000_0000_0000,
        ;
    }
    Ratio { num: vh as i128 * h.den - h.num, den: 2 * h.den }
}

/// The texture column sampled at hit `p` on texture `t`.
pub fn texture_region(p: Point, t: Texture) -> (r: TextureRegion)
    ensures
        r == region_of(p, t),
{
    let one = ONE as i128;
    let nx = p.x as i128 - div_floor(p.x as i128, one) * one;
    let ny = p.y as i128 - div_floor(p.y as i128, one) * one;
    proof {
        vstd::arithmetic::div_mod::lemma_fundamental_div_mod(p.x as int, ONE as int);
        vstd::arithmetic::div_mod::lemma_fundamental_div_mod(p.y as int, ONE as int);
        assert(0 <= t.width * nx <= 0x1_0000_0000 * 65536) by (nonlinear_arith)
            requires
                0 <= t.width <= 0x1_0000_0000,
                0 <= nx < 65536,
        ;
        assert(0 <= t.width * ny <= 0x1_0000_0000 * 65536) by (nonlinear_arith)
            requires
                0 <= t.width <= 0x1_0000_0000,
                0 <= ny < 65536,
        ;
        assert(0 <= t.height * nx <= 0x1_0000_0000 * 65536) by (nonlinear_arith)
            requires
                0 <= t.height <= 0x1_0000_0000,
                0 <= nx < 65536,
        ;
        crate::geometry::lemma_div_abs_le(t.width * nx, ONE as int);
        crate::geometry::lemma_div_abs_le(t.width * ny, ONE as int);
        crate::geometry::lemma_div_abs_le(t.height * nx, ONE as int);
    }
    if ny == 0 {
        TextureRegion {
            x: div_floor(t.width as i128 * nx, one) as i64,
            y: 0,
            width: 1,
            height: t.height as i64,
        }
    } else {
        TextureRegion {
            x: div_floor(t.width as i128 * ny, one) as i64,
            y: div_floor(t.height as i128 * nx, one) as i64,
            width: 1,
            height: t.height as i64,
        }
    }
}

/// The strip for one sample: one for every cell that is not empty.
pub fn project_sample(player: &Player, vw: u32, vh: u32, column: usize, s: Sample) -> (r: Option<
    Strip,
>)
    requires
        dir_ok(player.dir),
        vh > 0,
    ensures
        r == strip_of(*player, vw as int, vh as int, column as int, s),
{
    let d = perpendicular_distance(player, s.1);
    proof {
        lemma_perp_dist_bound(*player, s.1);
    }
    let d = if d <= 0 {
        1
    } else {
        d
    };
    let h = column_height(vw, vh, d);
    let top = column_top(vh, h);
    let paint = match s.0 {
        Cell::Empty => {
            return None;
        },
        Cell::SolidColor(c) => Paint::Flat(c),
        Cell::OpaqueTexture(t) => Paint::Textured(t, texture_region(s.1, t)),
        Cell::TranslucentTexture(t) => Paint::Textured(t, texture_region(s.1, t)),
    };
    Some(Strip { column, dist: d, top, height: h, paint })
}

proof fn lemma_perp_dist_bound(p: Player, q: Point)
    requires
        dir_ok(p.dir),
    ensures
        perp_dist(p, q) <= 0x1000_0000_0000_0000_0000_0000,
{
    let ex = q.x - p.pos.x;
    let ey = q.y - p.pos.y;
    crate::geometry::lemma_mul_abs_le(ex, p.dir.x as int, 0x2_0000_0000_0000_0000, 1048576);
    crate::geometry::lemma_mul_abs_le(ey, p.dir.y as int, 0x2_0000_0000_0000_0000, 1048576);
    crate::geometry::lemma_div_abs_le(ex * p.dir.x + ey * p.dir.y, ONE as int);
}

/// The strips of screen column `column` from its samples, farthest first.
pub fn project_column(player: &Player, vw: u32, vh: u32, column: usize, samples: &Vec<Sample>) -> (r:
    Vec<Strip>)
    requires
        dir_ok(player.dir),
        vh > 0,
    ensures
        r@ == strips_of(*player, vw as int, vh as int, column as int, samples@),
        r@.len() == non_empty_count(samples@),
{
    let mut out: Vec<Strip> = Vec::new();
    let mut j: usize = samples.len();
    while j > 0
        invariant
            dir_ok(player.dir),
            vh > 0,
            j <= samples@.len(),
            out@ == strips_of(
                *player,
                vw as int,
                vh as int,
                column as int,
                samples@.subrange(j as int, samples@.len() as int),
            ),
        decreases j,
    {
        let s = samples[j - 1];
        let ghost tail = samples@.subrange(j as int, samples@.len() as int);
        let ghost longer = samples@.subrange(j - 1, samples@.len() as int);
        assert(longer.subrange(1, longer.len() as int) =~= tail);
        assert(longer[0] == s);
        match project_sample(player, vw, vh, column, s) {
            Some(st) => {
                out.push(st);
            },
            None => {},
        }
        j = j - 1;
    }
    assert(samples@.subrange(0, samples@.len() as int) =~= samples@);
    proof {
        lemma_one_strip_per_hit(*player, vw as int, vh as int, column as int, samples@);
    }
    out
}

/// The strips of a whole frame: screen column `x` shows the samples of
/// column `n - 1 - x`, so the fan's first ray lands at the right edge.
pub fn project_view(player: &Player, vw: u32, vh: u32, columns: &Vec<Vec<Sample>>) -> (r: Vec<
    Vec<Strip>,
>)
    requires
        dir_ok(player.dir),
        vh > 0,
    ensures
        r@.len() == columns@.len(),
        forall|x: int|
            0 <= x < columns@.len() ==> (#[trigger] r@[x])@ == strips_of(
                *player,
                vw as int,
                vh as int,
                x,
                columns@[columns@.len() - 1 - x]@,
            ),
{
    let n = columns.len();
    let mut out: Vec<Vec<Strip>> = Vec::new();
    let mut x: usize = 0;
    while x < n
        invariant
            dir_ok(player.dir),
            vh > 0,
            n == columns@.len(),
            x <= n,
            out@.len() == x,
            forall|k: int|
                0 <= k < x ==> (#[trigger] out@[k])@ == strips_of(
                    *player,
                    vw as int,
                    vh as int,
                    k,
                    columns@[n - 1 - k]@,
                ),
        decreases n - x,
    {
        let strips = project_column(player, vw, vh, x, &columns[n - 1 - x]);
        out.push(strips);
        x = x + 1;
    }
    out
}

} // verus!

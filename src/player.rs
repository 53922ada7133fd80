//! The camera: position, facing direction, movement and turning.

use vstd::prelude::*;
use crate::geometry::{
    Point, ONE, DIR_LIMIT, coord_ok, floor_div, abs, div_floor, lemma_mul_abs_le,
};

verus! {

/// Longest frame time accepted, in fixed-point seconds (256 s): it bounds
/// a frame's step so that positions stay exact 64-bit values.
pub const MAX_FRAME: i64 = 16777216;

/// Turn speed of a new player: a quarter turn per second, in fixed-point
/// radians.
pub const QUARTER_TURN: i64 = 102944;

/// A rotation by some angle, as its cosine and sine in fixed-point units.
#[derive(Clone, Copy, Debug, PartialEq, Eq, Structural)]
pub struct Rotation {
    pub cos: i64,
    pub sin: i64,
}

pub open spec fn rotation_ok(r: Rotation) -> bool {
    -ONE <= r.cos <= ONE && -ONE <= r.sin <= ONE
}

/// The squared cosine and sine add up to one, within the rounding of their
/// fixed-point values.
pub open spec fn unit_rotation(r: Rotation) -> bool {
    &&& rotation_ok(r)
    &&& ONE * ONE - 2 * ONE <= r.cos * r.cos + r.sin * r.sin <= ONE * ONE + 2 * ONE
}

/// Squared length of a vector.
pub open spec fn sq_len(d: Point) -> int {
    d.x * d.x + d.y * d.y
}

/// The same rotation the other way round.
pub open spec fn inverse(r: Rotation) -> Rotation {
    Rotation { cos: r.cos, sin: (-r.sin) as i64 }
}

/// `a * b` for fixed-point numbers, rounded down.
pub open spec fn fp_mul(a: int, b: int) -> int {
    floor_div(a * b, ONE as int)
}

/// `d` rotated by `r`, each component rounded down.
pub open spec fn rotated(d: Point, r: Rotation) -> Point {
    Point {
        x: floor_div(d.x * r.cos - d.y * r.sin, ONE as int) as i64,
        y: floor_div(d.x * r.sin + d.y * r.cos, ONE as int) as i64,
    }
}

/// A vector whose components are at most `m` in magnitude.
pub open spec fn bounded(d: Point, m: int) -> bool {
    abs(d.x as int) <= m && abs(d.y as int) <= m
}

/// Rotates `d` by `r`.
pub fn rotate(d: Point, r: Rotation) -> (out: Point)
    requires
        bounded(d, 4 * DIR_LIMIT),
        rotation_ok(r),
    ensures
        out == rotated(d, r),
        bounded(out, abs(d.x as int) + abs(d.y as int) + 1),
        abs(ONE * ONE * sq_len(out) - sq_len(d) * (r.cos * r.cos + r.sin * r.sin)) <= 4 * ONE * ONE
            * (abs(d.x as int) + abs(d.y as int) + 1),
{
    proof {
        lemma_rotate_drift(d, r);
        let (dx, dy, c, s) = (d.x as int, d.y as int, r.cos as int, r.sin as int);
        lemma_rotate_bound(dx, dy, c, s);
        lemma_rotate_bound(dx, -dy, s, c);
        assert(dx * s - (-dy) * c == dx * s + dy * c) by (nonlinear_arith);
        lemma_mul_abs_le(dx, c, 4 * DIR_LIMIT, ONE as int);
        lemma_mul_abs_le(dx, s, 4 * DIR_LIMIT, ONE as int);
        lemma_mul_abs_le(dy, c, 4 * DIR_LIMIT, ONE as int);
        lemma_mul_abs_le(dy, s, 4 * DIR_LIMIT, ONE as int);
    }
    let x = div_floor(d.x as i128 * r.cos as i128 - d.y as i128 * r.sin as i128, ONE as i128);
    let y = div_floor(d.x as i128 * r.sin as i128 + d.y as i128 * r.cos as i128, ONE as i128);
    Point { x: x as i64, y: y as i64 }
}

proof fn lemma_rotate_bound(a: int, b: int, c: int, s: int)
    requires
        abs(a) <= 4 * DIR_LIMIT,
        abs(b) <= 4 * DIR_LIMIT,
        abs(c) <= ONE,
        abs(s) <= ONE,
    ensures
        abs(a * c - b * s) <= (abs(a) + abs(b)) * ONE,
        abs(floor_div(a * c - b * s, ONE as int)) <= abs(a) + abs(b) + 1,
{
    let one = ONE as int;
    assert(abs(a * c - b * s) <= (abs(a) + abs(b)) * one) by (nonlinear_arith)
        requires
            abs(c) <= one,
            abs(s) <= one,
    ;
    let v = a * c - b * s;
    let q = v / one;
    vstd::arithmetic::div_mod::lemma_fundamental_div_mod(v, one);
    assert(abs(q) <= abs(a) + abs(b) + 1) by (nonlinear_arith)
        requires
            v == q * one + v % one,
            0 <= v % one < one,
            abs(v) <= (abs(a) + abs(b)) * one,
            one > 0,
    ;
}

/// `q = floor(v / ONE)` squares to `v * v`, scaled, up to rounding.
proof fn lemma_floor_square(v: int)
    ensures
        abs(ONE * ONE * (floor_div(v, ONE as int) * floor_div(v, ONE as int)) - v * v) <= 2 * ONE
            * abs(v) + ONE * ONE,
{
    let one = ONE as int;
    let q = v / one;
    let e = v % one;
    vstd::arithmetic::div_mod::lemma_fundamental_div_mod(v, one);
    assert(abs(one * one * (q * q) - v * v) <= 2 * one * abs(v) + one * one) by (nonlinear_arith)
        requires
            v == q * one + e,
            0 <= e < one,
    ;
}

/// Rotating with rounding changes the squared length by the rotation's
/// own factor, plus at most the rounding of both components.
proof fn lemma_rotate_drift(d: Point, r: Rotation)
    requires
        bounded(d, 4 * DIR_LIMIT),
        rotation_ok(r),
    ensures
        abs(ONE * ONE * sq_len(rotated(d, r)) - sq_len(d) * (r.cos * r.cos + r.sin * r.sin)) <= 4
            * ONE * ONE * (abs(d.x as int) + abs(d.y as int) + 1),
{
    let (dx, dy, c, s) = (d.x as int, d.y as int, r.cos as int, r.sin as int);
    let one = ONE as int;
    let vx = dx * c - dy * s;
    let vy = dx * s + dy * c;
    lemma_rotate_bound(dx, dy, c, s);
    lemma_rotate_bound(dx, -dy, s, c);
    assert(dx * s - (-dy) * c == vy) by (nonlinear_arith)
        requires
            vy == dx * s + dy * c,
    ;
    lemma_floor_square(vx);
    lemma_floor_square(vy);
    let qx = floor_div(vx, one);
    let qy = floor_div(vy, one);
    assert(rotated(d, r).x == qx && rotated(d, r).y == qy);
    lemma_rotation_norm(dx, dy, c, s, vx, vy);
    let m = abs(dx) + abs(dy);
    assert(2 * one * abs(vx) + 2 * one * abs(vy) <= 4 * one * one * m) by (nonlinear_arith)
        requires
            abs(vx) <= m * one,
            abs(vy) <= m * one,
            one > 0,
    ;
    assert(one * one * (qx * qx + qy * qy) == one * one * (qx * qx) + one * one * (qy * qy))
        by (nonlinear_arith);
    assert(sq_len(rotated(d, r)) == qx * qx + qy * qy);
    assert(sq_len(d) * (c * c + s * s) == vx * vx + vy * vy);
    assert(abs(one * one * (qx * qx + qy * qy) - (vx * vx + vy * vy)) <= 4 * one * one * (m + 1))
        by (nonlinear_arith)
        requires
            abs(one * one * (qx * qx) - vx * vx) <= 2 * one * abs(vx) + one * one,
            abs(one * one * (qy * qy) - vy * vy) <= 2 * one * abs(vy) + one * one,
            2 * one * abs(vx) + 2 * one * abs(vy) <= 4 * one * one * m,
            one * one * (qx * qx + qy * qy) == one * one * (qx * qx) + one * one * (qy * qy),
            one == 65536,
    ;
}

proof fn lemma_inverse_unit(r: Rotation)
    requires
        unit_rotation(r),
    ensures
        unit_rotation(inverse(r)),
{
    assert((-r.sin) * (-r.sin) == r.sin * r.sin) by (nonlinear_arith);
}

/// `|(a c - b s, a s + b c)|^2 = |(a, b)|^2 (c^2 + s^2)`.
proof fn lemma_rotation_norm(a: int, b: int, c: int, s: int, vx: int, vy: int)
    requires
        vx == a * c - b * s,
        vy == a * s + b * c,
    ensures
        vx * vx + vy * vy == (a * a + b * b) * (c * c + s * s),
{
    let (p1, p2, p3, p4) = (a * c, b * s, a * s, b * c);
    assert(vx * vx + vy * vy == p1 * p1 + p2 * p2 + p3 * p3 + p4 * p4 - 2 * (p1 * p2) + 2 * (p3
        * p4)) by (nonlinear_arith)
        requires
            vx == p1 - p2,
            vy == p3 + p4,
    ;
    assert(p1 * p2 == p3 * p4) by (nonlinear_arith)
        requires
            p1 == a * c,
            p2 == b * s,
            p3 == a * s,
            p4 == b * c,
    ;
    assert(p1 * p1 + p3 * p3 == a * a * (c * c + s * s)) by (nonlinear_arith)
        requires
            p1 == a * c,
            p3 == a * s,
    ;
    assert(p2 * p2 + p4 * p4 == b * b * (c * c + s * s)) by (nonlinear_arith)
        requires
            p2 == b * s,
            p4 == b * c,
    ;
    assert(a * a * (c * c + s * s) + b * b * (c * c + s * s) == (a * a + b * b) * (c * c + s * s))
        by (nonlinear_arith);
}

/// Turning by a unit rotation keeps the facing direction's length: the
/// squared length changes by at most `2 / ONE` of itself plus the rounding
/// of the two components (a few units for a direction of length `ONE`).
pub proof fn lemma_rotation_keeps_length(d: Point, r: Rotation)
    requires
        bounded(d, 4 * DIR_LIMIT),
        unit_rotation(r),
    ensures
        abs(ONE * ONE * sq_len(rotated(d, r)) - ONE * ONE * sq_len(d)) <= 2 * ONE * sq_len(d) + 4
            * ONE * ONE * (abs(d.x as int) + abs(d.y as int) + 1),
{
    lemma_rotate_drift(d, r);
    let l = sq_len(d);
    let k = r.cos * r.cos + r.sin * r.sin;
    let one = ONE as int;
    assert(l >= 0) by (nonlinear_arith)
        requires
            l == d.x * d.x + d.y * d.y,
    ;
    assert(abs(l * k - one * one * l) <= 2 * one * l) by (nonlinear_arith)
        requires
            l >= 0,
            one * one - 2 * one <= k <= one * one + 2 * one,
    ;
}

/// Turning back by the same unit rotation restores the direction, up to
/// rounding: each component comes back within `2 * |d| / ONE + 3` units.
pub proof fn lemma_turn_back(d: Point, r: Rotation)
    requires
        bounded(d, DIR_LIMIT as int),
        unit_rotation(r),
    ensures
        ONE * abs(rotated(rotated(d, inverse(r)), r).x - d.x) <= 2 * abs(d.x as int) + 3 * ONE,
        ONE * abs(rotated(rotated(d, inverse(r)), r).y - d.y) <= 2 * abs(d.y as int) + 3 * ONE,
{
    let (dx, dy, c, s) = (d.x as int, d.y as int, r.cos as int, r.sin as int);
    let one = ONE as int;
    let ux = dx * c + dy * s;
    let uy = dy * c - dx * s;
    lemma_rotate_bound(dx, -dy, c, s);
    lemma_rotate_bound(dy, dx, c, s);
    assert(dx * c - (-dy) * s == ux && dx * c - dy * (-s) == ux && dx * (-s) + dy * c == uy
        && dy * c - dx * s == uy) by (nonlinear_arith)
        requires
            ux == dx * c + dy * s,
            uy == dy * c - dx * s,
    ;
    let a = rotated(d, inverse(r));
    vstd::arithmetic::div_mod::lemma_fundamental_div_mod(ux, one);
    vstd::arithmetic::div_mod::lemma_fundamental_div_mod(uy, one);
    let ax = ux / one;
    let ay = uy / one;
    let ea = ux % one;
    let eb = uy % one;
    assert(a.x == ax && a.y == ay);
    lemma_rotate_bound(ax, ay, c, s);
    lemma_rotate_bound(ax, -ay, s, c);
    let wx = ax * c - ay * s;
    let wy = ax * s + ay * c;
    assert(ax * s - (-ay) * c == wy) by (nonlinear_arith)
        requires
            wy == ax * s + ay * c,
    ;
    vstd::arithmetic::div_mod::lemma_fundamental_div_mod(wx, one);
    vstd::arithmetic::div_mod::lemma_fundamental_div_mod(wy, one);
    let bx = wx / one;
    let by = wy / one;
    let fx = wx % one;
    let fy = wy % one;
    assert(rotated(a, r).x == bx && rotated(a, r).y == by);
    let k = c * c + s * s;
    // one * wx = (ux - ea) * c - (uy - eb) * s, and ux * c - uy * s = dx * k
    assert(one * wx == (ux - ea) * c - (uy - eb) * s) by (nonlinear_arith)
        requires
            one * ax == ux - ea,
            one * ay == uy - eb,
            wx == ax * c - ay * s,
    ;
    assert(one * wy == (ux - ea) * s + (uy - eb) * c) by (nonlinear_arith)
        requires
            one * ax == ux - ea,
            one * ay == uy - eb,
            wy == ax * s + ay * c,
    ;
    assert(ux * c - uy * s == dx * k && ux * s + uy * c == dy * k) by (nonlinear_arith)
        requires
            ux == dx * c + dy * s,
            uy == dy * c - dx * s,
            k == c * c + s * s,
    ;
    assert(one * wx == dx * k - ea * c + eb * s) by (nonlinear_arith)
        requires
            one * wx == (ux - ea) * c - (uy - eb) * s,
            ux * c - uy * s == dx * k,
    ;
    assert(one * wy == dy * k - ea * s - eb * c) by (nonlinear_arith)
        requires
            one * wy == (ux - ea) * s + (uy - eb) * c,
            ux * s + uy * c == dy * k,
    ;
    lemma_turn_back_bound(dx, k, one * wx, bx, fx, ea, eb, c, s);
    assert((-eb) * c == -(eb * c)) by (nonlinear_arith);
    lemma_turn_back_bound(dy, k, one * wy, by, fy, ea, -eb, s, c);
}

/// `one * |q - v| <= 2 |v| + 3 one` where `one^2 q = v k + (small terms)`
/// and `k` is within `2 one` of `one^2`.
proof fn lemma_turn_back_bound(v: int, k: int, w1: int, q: int, f: int, e1: int, e2: int, c: int, s: int)
    requires
        ONE * ONE - 2 * ONE <= k <= ONE * ONE + 2 * ONE,
        w1 == v * k - e1 * c + e2 * s,
        w1 == ONE * (q * ONE + f),
        0 <= f < ONE,
        0 <= e1 < ONE,
        -ONE < e2 < ONE,
        abs(c) <= ONE,
        abs(s) <= ONE,
    ensures
        ONE * abs(q - v) <= 2 * abs(v) + 3 * ONE,
{
    let one = ONE as int;
    assert(abs(v * k - one * one * v) <= 2 * one * abs(v)) by (nonlinear_arith)
        requires
            one * one - 2 * one <= k <= one * one + 2 * one,
            one > 0,
    ;
    assert(abs(e1 * c) <= one * one && abs(e2 * s) <= one * one) by (nonlinear_arith)
        requires
            0 <= e1 < one,
            -one < e2 < one,
            abs(c) <= one,
            abs(s) <= one,
    ;
    // one * one * (q - v) = (v * k - one * one * v) - e1 * c + e2 * s - one * f
    assert(one * one * (q - v) == (v * k - one * one * v) - e1 * c + e2 * s - one * f)
        by (nonlinear_arith)
        requires
            w1 == v * k - e1 * c + e2 * s,
            w1 == one * (q * one + f),
    ;
    assert(one * (one * abs(q - v)) <= one * (2 * abs(v) + 3 * one)) by (nonlinear_arith)
        requires
            abs(one * one * (q - v)) <= 2 * one * abs(v) + 3 * one * one,
            one > 0,
    ;
    assert(one * abs(q - v) <= 2 * abs(v) + 3 * one) by (nonlinear_arith)
        requires
            one * (one * abs(q - v)) <= one * (2 * abs(v) + 3 * one),
            one > 0,
    ;
}

/// Which movement and turn signals are held during one frame.
#[derive(Clone, Copy, Debug, PartialEq, Eq, Structural)]
pub struct Controls {
    pub forward: bool,
    pub backward: bool,
    pub turn_left: bool,
    pub turn_right: bool,
}

/// The camera: position in the board, facing direction (of length `ONE`
/// when new), speed along each axis and turn speed, all fixed-point.
#[derive(Clone, Copy, Debug, PartialEq, Eq, Structural)]
pub struct Player {
    pub pos: Point,
    pub dir: Point,
    pub spd: Point,
    pub turn_spd: i64,
}

/// The step taken along the facing direction in `delta` seconds.
pub open spec fn stride(p: Player, delta: int) -> Point {
    Point {
        x: fp_mul(fp_mul(p.spd.x as int, delta), p.dir.x as int) as i64,
        y: fp_mul(fp_mul(p.spd.y as int, delta), p.dir.y as int) as i64,
    }
}

/// Speeds, direction and frame time (at most `MAX_FRAME`) within the
/// bounds that keep a step's arithmetic exact.
pub open spec fn motion_ok(p: Player, delta: int) -> bool {
    &&& bounded(p.spd, DIR_LIMIT as int)
    &&& bounded(p.dir, DIR_LIMIT as int)
    &&& 0 <= delta <= MAX_FRAME
    &&& coord_ok(p.pos)
}

impl Player {
    /// A player at `(x, y)` facing along the x axis, moving one cell per
    /// second and turning a quarter turn per second.
    pub fn new(x: i64, y: i64) -> (p: Player)
        ensures
            p.pos == (Point { x, y }),
            p.dir == (Point { x: ONE, y: 0 }),
            p.spd == (Point { x: ONE, y: ONE }),
            p.turn_spd == QUARTER_TURN,
    {
        Player {
            pos: Point { x, y },
            dir: Point { x: ONE, y: 0 },
            spd: Point { x: ONE, y: ONE },
            turn_spd: QUARTER_TURN,
        }
    }

    /// The step taken along the facing direction in `delta` seconds.
    pub fn stride(&self, delta: i64) -> (s: Point)
        requires
            motion_ok(*self, delta as int),
        ensures
            s == stride(*self, delta as int),
            bounded(s, 2 * ONE * ONE),
    {
        let one = ONE as i128;
        proof {
            lemma_fp_mul_bound(self.spd.x as int, delta as int, DIR_LIMIT as int, MAX_FRAME as int);
            lemma_fp_mul_bound(self.spd.y as int, delta as int, DIR_LIMIT as int, MAX_FRAME as int);
            lemma_mul_abs_le(self.spd.x as int, delta as int, DIR_LIMIT as int, MAX_FRAME as int);
            lemma_mul_abs_le(self.spd.y as int, delta as int, DIR_LIMIT as int, MAX_FRAME as int);
        }
        let a = div_floor(self.spd.x as i128 * delta as i128, one);
        let b = div_floor(self.spd.y as i128 * delta as i128, one);
        proof {
            lemma_fp_mul_bound(a as int, self.dir.x as int, 268435457, DIR_LIMIT as int);
            lemma_fp_mul_bound(b as int, self.dir.y as int, 268435457, DIR_LIMIT as int);
            lemma_mul_abs_le(a as int, self.dir.x as int, 268435457, DIR_LIMIT as int);
            lemma_mul_abs_le(b as int, self.dir.y as int, 268435457, DIR_LIMIT as int);
        }
        let x = div_floor(a * self.dir.x as i128, one);
        let y = div_floor(b * self.dir.y as i128, one);
        Point { x: x as i64, y: y as i64 }
    }

    /// Moves along the facing direction for `delta` seconds.
    pub fn move_forward(&mut self, delta: i64)
        requires
            motion_ok(*old(self), delta as int),
        ensures
            final(self).pos.x == old(self).pos.x + stride(*old(self), delta as int).x,
            final(self).pos.y == old(self).pos.y + stride(*old(self), delta as int).y,
            final(self).dir == old(self).dir,
            final(self).spd == old(self).spd,
            final(self).turn_spd == old(self).turn_spd,
    {
        let s = self.stride(delta);
        self.pos = Point { x: self.pos.x + s.x, y: self.pos.y + s.y };
    }

    /// Moves against the facing direction for `delta` seconds.
    pub fn move_backward(&mut self, delta: i64)
        requires
            motion_ok(*old(self), delta as int),
        ensures
            final(self).pos.x == old(self).pos.x - stride(*old(self), delta as int).x,
            final(self).pos.y == old(self).pos.y - stride(*old(self), delta as int).y,
            final(self).dir == old(self).dir,
            final(self).spd == old(self).spd,
            final(self).turn_spd == old(self).turn_spd,
    {
        let s = self.stride(delta);
        self.pos = Point { x: self.pos.x - s.x, y: self.pos.y - s.y };
    }

    /// The angle turned in `delta` seconds, in fixed-point radians.
    pub fn turn_angle(&self, delta: i64) -> (a: i64)
        requires
            0 <= self.turn_spd <= DIR_LIMIT,
            0 <= delta <= MAX_FRAME,
        ensures
            a == fp_mul(self.turn_spd as int, delta as int),
    {
        proof {
            lemma_fp_mul_bound(self.turn_spd as int, delta as int, DIR_LIMIT as int, MAX_FRAME as int);
            lemma_mul_abs_le(self.turn_spd as int, delta as int, DIR_LIMIT as int, MAX_FRAME as int);
        }
        div_floor(self.turn_spd as i128 * delta as i128, ONE as i128) as i64
    }

    /// Turns toward negative angles by `turn`, the rotation by
    /// `turn_angle(delta)` of a frame.
    pub fn turn_left(&mut self, turn: Rotation)
        requires
            bounded(old(self).dir, 4 * DIR_LIMIT),
            unit_rotation(turn),
        ensures
            final(self).dir == rotated(old(self).dir, inverse(turn)),
            abs(ONE * ONE * sq_len(final(self).dir) - ONE * ONE * sq_len(old(self).dir)) <= 2 * ONE
                * sq_len(old(self).dir) + 4 * ONE * ONE * (abs(old(self).dir.x as int) + abs(
                old(self).dir.y as int,
            ) + 1),
            final(self).pos == old(self).pos,
            final(self).spd == old(self).spd,
            final(self).turn_spd == old(self).turn_spd,
    {
        proof {
            lemma_inverse_unit(turn);
            lemma_rotation_keeps_length(self.dir, inverse(turn));
        }
        self.dir = rotate(self.dir, Rotation { cos: turn.cos, sin: -turn.sin });
    }

    /// Turns toward positive angles by `turn`.
    pub fn turn_right(&mut self, turn: Rotation)
        requires
            bounded(old(self).dir, 4 * DIR_LIMIT),
            unit_rotation(turn),
        ensures
            final(self).dir == rotated(old(self).dir, turn),
            abs(ONE * ONE * sq_len(final(self).dir) - ONE * ONE * sq_len(old(self).dir)) <= 2 * ONE
                * sq_len(old(self).dir) + 4 * ONE * ONE * (abs(old(self).dir.x as int) + abs(
                old(self).dir.y as int,
            ) + 1),
            final(self).pos == old(self).pos,
            final(self).spd == old(self).spd,
            final(self).turn_spd == old(self).turn_spd,
    {
        proof {
            lemma_rotation_keeps_length(self.dir, turn);
        }
        self.dir = rotate(self.dir, turn);
    }
}

/// The player after one frame of `controls`: forward, then backward, then
/// turning left, then right, where `turn` is the rotation by
/// `turn_angle(delta)`.
pub open spec fn after_controls(p: Player, controls: Controls, delta: int, turn: Rotation) -> Player {
    let s = stride(p, delta);
    let fx = if controls.forward { s.x as int } else { 0 };
    let fy = if controls.forward { s.y as int } else { 0 };
    let bx = if controls.backward { s.x as int } else { 0 };
    let by = if controls.backward { s.y as int } else { 0 };
    let d1 = if controls.turn_left { rotated(p.dir, inverse(turn)) } else { p.dir };
    let d2 = if controls.turn_right { rotated(d1, turn) } else { d1 };
    Player {
        pos: Point { x: (p.pos.x + fx - bx) as i64, y: (p.pos.y + fy - by) as i64 },
        dir: d2,
        ..p
    }
}

impl Player {
    /// Applies one frame of held controls.
    pub fn update(&mut self, controls: Controls, delta: i64, turn: Rotation)
        requires
            motion_ok(*old(self), delta as int),
            unit_rotation(turn),
        ensures
            *final(self) == after_controls(*old(self), controls, delta as int, turn),
    {
        let s = self.stride(delta);
        if controls.forward {
            self.pos = Point { x: self.pos.x + s.x, y: self.pos.y + s.y };
        }
        if controls.backward {
            self.pos = Point { x: self.pos.x - s.x, y: self.pos.y - s.y };
        }
        if controls.turn_left {
            self.turn_left(turn);
        }
        if controls.turn_right {
            proof {
                lemma_rotate_keeps_bound(old(self).dir, inverse(turn));
            }
            self.turn_right(turn);
        }
    }
}

proof fn lemma_rotate_keeps_bound(d: Point, r: Rotation)
    requires
        bounded(d, DIR_LIMIT as int),
        rotation_ok(r),
    ensures
        bounded(rotated(d, r), 4 * DIR_LIMIT),
{
    lemma_rotate_bound(d.x as int, d.y as int, r.cos as int, r.sin as int);
    lemma_rotate_bound(d.x as int, -d.y as int, r.sin as int, r.cos as int);
    assert((d.x as int) * (r.sin as int) - (-d.y as int) * (r.cos as int) == (d.x as int) * (
    r.sin as int) + (d.y as int) * (r.cos as int)) by (nonlinear_arith);
}

proof fn lemma_fp_mul_bound(a: int, b: int, x: int, y: int)
    requires
        abs(a) <= x,
        abs(b) <= y,
    ensures
        abs(fp_mul(a, b)) * ONE <= x * y + ONE,
{
    let one = ONE as int;
    lemma_mul_abs_le(a, b, x, y);
    let v = a * b;
    let q = v / one;
    vstd::arithmetic::div_mod::lemma_fundamental_div_mod(v, one);
    assert(abs(q) * one <= x * y + one) by (nonlinear_arith)
        requires
            v == q * one + v % one,
            0 <= v % one < one,
            abs(v) <= x * y,
            one > 0,
    ;
}

} // verus!

//! Fixed-point points and vectors, and exact rounding division.

use vstd::prelude::*;

verus! {

/// Units per cell (and per pixel on screen): coordinates are fixed-point
/// numbers with 16 fractional bits.
pub const ONE: i64 = 65536;

/// Largest magnitude of a position coordinate, in units.
pub const COORD_LIMIT: i64 = 4294967296;

/// Largest magnitude of a direction component, in units.
pub const DIR_LIMIT: i64 = 1048576;

/// A point or a vector in fixed-point units.
#[derive(Clone, Copy, Debug, PartialEq, Eq, Structural)]
pub struct Point {
    pub x: i64,
    pub y: i64,
}

impl Point {
    pub fn new(x: i64, y: i64) -> (r: Point)
        ensures
            r.x == x,
            r.y == y,
    {
        Point { x, y }
    }

    pub fn zero() -> (r: Point)
        ensures
            r.x == 0,
            r.y == 0,
    {
        Point { x: 0, y: 0 }
    }
}

/// A position whose coordinates stay within `COORD_LIMIT`.
pub open spec fn coord_ok(p: Point) -> bool {
    -COORD_LIMIT <= p.x <= COORD_LIMIT && -COORD_LIMIT <= p.y <= COORD_LIMIT
}

/// A direction whose components stay within `DIR_LIMIT`.
pub open spec fn dir_ok(d: Point) -> bool {
    -DIR_LIMIT <= d.x <= DIR_LIMIT && -DIR_LIMIT <= d.y <= DIR_LIMIT
}

/// `floor(a / b)` for a positive divisor.
pub open spec fn floor_div(a: int, b: int) -> int
    recommends
        b > 0,
{
    a / b
}

/// `ceil(a / b)` for a positive divisor.
pub open spec fn ceil_div(a: int, b: int) -> int
    recommends
        b > 0,
{
    -((-a) / b)
}

pub open spec fn abs(a: int) -> int {
    if a < 0 {
        -a
    } else {
        a
    }
}

/// Rounds down: the largest integer `q` with `q * b <= a`.
pub fn div_floor(a: i128, b: i128) -> (q: i128)
    requires
        b > 0,
        a > i128::MIN,
    ensures
        q == floor_div(a as int, b as int),
{
    if a >= 0 {
        let q = a / b;
        q
    } else {
        let n = -a - 1;
        let q0 = n / b;
        proof {
            lemma_neg_floor(a as int, b as int, q0 as int);
        }
        -q0 - 1
    }
}

/// Rounds up: the smallest integer `q` with `q * b >= a`.
pub fn div_ceil(a: i128, b: i128) -> (q: i128)
    requires
        b > 0,
        a > i128::MIN,
    ensures
        q == ceil_div(a as int, b as int),
{
    let q = div_floor(-a, b);
    proof {
        lemma_floor_div_at_least(-a, b as int);
    }
    -q
}

proof fn lemma_floor_div_at_least(x: int, b: int)
    requires
        b > 0,
    ensures
        x / b >= x || x >= 0,
        x >= 0 ==> x / b >= 0,
{
    let q = x / b;
    let r = x % b;
    vstd::arithmetic::div_mod::lemma_fundamental_div_mod(x, b);
    assert(x / b >= x || x >= 0) by (nonlinear_arith)
        requires
            x == q * b + r,
            0 <= r < b,
            q == x / b,
    ;
    if x >= 0 {
        vstd::arithmetic::div_mod::lemma_div_pos_is_pos(x, b);
    }
}

proof fn lemma_neg_floor(a: int, b: int, q0: int)
    requires
        a < 0,
        b > 0,
        q0 == (-a - 1) / b,
    ensures
        -q0 - 1 == a / b,
{
    let n = -a - 1;
    let r = n % b;
    assert(n == q0 * b + r && 0 <= r < b) by {
        vstd::arithmetic::div_mod::lemma_fundamental_div_mod(n, b);
    }
    // a = -(q0 + 1) * b + (b - 1 - r)
    assert(a == (-q0 - 1) * b + (b - 1 - r)) by (nonlinear_arith)
        requires
            n == q0 * b + r,
            n == -a - 1,
    ;
    vstd::arithmetic::div_mod::lemma_fundamental_div_mod_converse(a, b, -q0 - 1, b - 1 - r);
}

/// `|a * b| <= x * y` when `|a| <= x` and `|b| <= y`.
pub proof fn lemma_mul_abs_le(a: int, b: int, x: int, y: int)
    requires
        abs(a) <= x,
        abs(b) <= y,
    ensures
        abs(a * b) <= x * y,
{
    assert(abs(a * b) == abs(a) * abs(b)) by (nonlinear_arith);
    assert(abs(a) * abs(b) <= x * y) by (nonlinear_arith)
        requires
            0 <= abs(a) <= x,
            0 <= abs(b) <= y,
    ;
}

/// Dividing by a positive integer never grows the magnitude.
pub proof fn lemma_div_abs_le(a: int, b: int)
    requires
        b > 0,
    ensures
        abs(a / b) <= abs(a),
{
    let q = a / b;
    let r = a % b;
    vstd::arithmetic::div_mod::lemma_fundamental_div_mod(a, b);
    assert(abs(q) <= abs(a)) by (nonlinear_arith)
        requires
            a == q * b + r,
            0 <= r < b,
    ;
}

} // verus!

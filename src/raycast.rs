//! Following one ray across the grid lines of the board.

use vstd::prelude::*;
use crate::geometry::{
    Point, ONE, DIR_LIMIT, coord_ok, dir_ok, floor_div, ceil_div, abs, div_floor,
    div_ceil, lemma_mul_abs_le, lemma_div_abs_le,
};
use crate::board::{Board, Cell};

verus! {

/// Rays are followed up to this distance, in cells.
pub const FAR_CLIP: i64 = 10;

/// Upper bound on the grid lines a ray crosses before it leaves the far clip
/// distance; a guard that keeps every trace finite.
pub const MAX_STEPS: usize = 48;

/// Index of the first grid line met along one axis from coordinate `o` when
/// moving with sign `d` (a line the origin lies on counts).
pub open spec fn first_line(o: int, d: int) -> int {
    if d > 0 {
        ceil_div(o, ONE as int)
    } else {
        floor_div(o, ONE as int)
    }
}

/// Distance along one axis from `o` to grid line `k`, in the direction of
/// travel.
pub open spec fn line_gap(k: int, o: int, d: int) -> int {
    if d > 0 {
        k * ONE - o
    } else {
        o - k * ONE
    }
}

pub open spec fn line_step(d: int) -> int {
    if d > 0 {
        1
    } else {
        -1
    }
}

/// The next crossing lies on the vertical line `kx`: it comes no later than
/// the horizontal line `ky` (ties cross both at a corner).
pub open spec fn crosses_x(ox: int, oy: int, dx: int, dy: int, kx: int, ky: int) -> bool {
    dy == 0 || line_gap(kx, ox, dx) * abs(dy) <= line_gap(ky, oy, dy) * abs(dx)
}

/// The next crossing lies on the horizontal line `ky`.
pub open spec fn crosses_y(ox: int, oy: int, dx: int, dy: int, kx: int, ky: int) -> bool {
    dy != 0 && line_gap(ky, oy, dy) * abs(dx) <= line_gap(kx, ox, dx) * abs(dy)
}

/// Where the ray meets the next grid line; the coordinate that does not lie
/// on the line is rounded down to a unit.
pub open spec fn crossing(ox: int, oy: int, dx: int, dy: int, kx: int, ky: int) -> Point {
    if crosses_x(ox, oy, dx, dy, kx, ky) {
        Point {
            x: (kx * ONE) as i64,
            y: (oy + floor_div(line_gap(kx, ox, dx) * dy, abs(dx))) as i64,
        }
    } else {
        Point {
            x: (ox + floor_div(line_gap(ky, oy, dy) * dx, abs(dy))) as i64,
            y: (ky * ONE) as i64,
        }
    }
}

/// The next crossing lies closer to the origin than the far clip distance:
/// `|t * d| < FAR_CLIP` cells, with `t` the crossing's ray parameter.
pub open spec fn within_clip(ox: int, oy: int, dx: int, dy: int, kx: int, ky: int) -> bool {
    let len2 = dx * dx + dy * dy;
    let far = FAR_CLIP * ONE;
    if crosses_x(ox, oy, dx, dy, kx, ky) {
        let g = line_gap(kx, ox, dx);
        g * g * len2 < far * far * (dx * dx)
    } else {
        let g = line_gap(ky, oy, dy);
        g * g * len2 < far * far * (dy * dy)
    }
}

pub open spec fn next_kx(ox: int, oy: int, dx: int, dy: int, kx: int, ky: int) -> int {
    if crosses_x(ox, oy, dx, dy, kx, ky) {
        kx + line_step(dx)
    } else {
        kx
    }
}

pub open spec fn next_ky(ox: int, oy: int, dx: int, dy: int, kx: int, ky: int) -> int {
    if crosses_y(ox, oy, dx, dy, kx, ky) {
        ky + line_step(dy)
    } else {
        ky
    }
}

/// Column of the cell ahead of the ray, given the next vertical line it
/// will cross.
pub open spec fn ahead_col(dx: int, kx: int) -> int {
    if dx > 0 {
        kx - 1
    } else {
        kx
    }
}

/// Row of the cell ahead of the ray, given the next horizontal line it will
/// cross; a flat ray stays in the row above the line through its origin.
pub open spec fn ahead_row(oy: int, dy: int, ky: int) -> int {
    if dy > 0 {
        ky - 1
    } else if dy < 0 {
        ky
    } else {
        ceil_div(oy, ONE as int) - 1
    }
}

/// `v` moved into `0..n`.
pub open spec fn clamp(v: int, n: int) -> int {
    if v < 0 {
        0
    } else if v >= n {
        n - 1
    } else {
        v
    }
}

/// The cell that the ray enters at its crossing with lines `kx` / `ky`,
/// clamped into the board.
pub open spec fn ahead_cell(
    b: Board,
    ox: int,
    oy: int,
    dx: int,
    dy: int,
    kx: int,
    ky: int,
) -> Cell {
    let nkx = next_kx(ox, oy, dx, dy, kx, ky);
    let nky = next_ky(ox, oy, dx, dy, kx, ky);
    b.cell(
        clamp(ahead_col(dx, nkx), b.cols_spec() as int),
        clamp(ahead_row(oy, dy, nky), b.rows_spec() as int),
    )
}

/// The hits along the ray from the crossing with lines `kx` / `ky` on, for
/// at most `fuel` crossings: empty cells are passed, translucent ones are
/// recorded and passed, and the first other cell is recorded and ends it;
/// so does the far clip distance.
pub open spec fn trace(
    b: Board,
    ox: int,
    oy: int,
    dx: int,
    dy: int,
    kx: int,
    ky: int,
    fuel: nat,
) -> Seq<Point>
    decreases fuel,
{
    if fuel == 0 || !within_clip(ox, oy, dx, dy, kx, ky) {
        Seq::empty()
    } else {
        let p = crossing(ox, oy, dx, dy, kx, ky);
        let rest = trace(
            b,
            ox,
            oy,
            dx,
            dy,
            next_kx(ox, oy, dx, dy, kx, ky),
            next_ky(ox, oy, dx, dy, kx, ky),
            (fuel - 1) as nat,
        );
        match ahead_cell(b, ox, oy, dx, dy, kx, ky) {
            Cell::Empty => rest,
            Cell::TranslucentTexture(_) => seq![p] + rest,
            _ => seq![p],
        }
    }
}

/// A ray without horizontal component is followed as the flat line through
/// its origin toward smaller `x`, and stops at the first vertical grid line
/// at or left of the origin: the one hit there, if the cell to its left (in
/// the origin's row) is not empty.
pub open spec fn upright_hits(b: Board, start: Point, dir: Point) -> Seq<Point> {
    let fx = floor_div(start.x as int, ONE as int);
    let row = if dir.y > 0 {
        floor_div(start.y as int, ONE as int)
    } else {
        ceil_div(start.y as int, ONE as int) - 1
    };
    let c = b.cell(clamp(fx - 1, b.cols_spec() as int), clamp(row, b.rows_spec() as int));
    if c is Empty {
        Seq::empty()
    } else {
        seq![Point { x: (fx * ONE) as i64, y: start.y }]
    }
}

/// The hits of the ray from `start` in direction `dir`, nearest first.
pub open spec fn ray_hits(b: Board, start: Point, dir: Point) -> Seq<Point> {
    let (ox, oy, dx, dy) = (start.x as int, start.y as int, dir.x as int, dir.y as int);
    if dx == 0 {
        upright_hits(b, start, dir)
    } else {
        trace(b, ox, oy, dx, dy, first_line(ox, dx), first_line(oy, dy), MAX_STEPS as nat)
    }
}

/// On a board whose cells are all empty, no ray hits anything.
pub proof fn lemma_empty_board_no_hits(b: Board, start: Point, dir: Point)
    requires
        b.wf(),
        b.rows_spec() > 0,
        b.cols_spec() > 0,
        forall|x: int, y: int| b.in_bounds(x, y) ==> #[trigger] b.cell(x, y) == Cell::Empty,
    ensures
        ray_hits(b, start, dir) == Seq::<Point>::empty(),
{
    let (ox, oy, dx, dy) = (start.x as int, start.y as int, dir.x as int, dir.y as int);
    if dx == 0 {
        let fx = floor_div(ox, ONE as int);
        let row = if dir.y > 0 {
            floor_div(oy, ONE as int)
        } else {
            ceil_div(oy, ONE as int) - 1
        };
        assert(b.in_bounds(clamp(fx - 1, b.cols_spec() as int), clamp(row, b.rows_spec() as int)));
    } else {
        lemma_empty_trace(b, ox, oy, dx, dy, first_line(ox, dx), first_line(oy, dy), MAX_STEPS as nat);
    }
}

proof fn lemma_empty_trace(b: Board, ox: int, oy: int, dx: int, dy: int, kx: int, ky: int, fuel: nat)
    requires
        b.wf(),
        b.rows_spec() > 0,
        b.cols_spec() > 0,
        forall|x: int, y: int| b.in_bounds(x, y) ==> #[trigger] b.cell(x, y) == Cell::Empty,
    ensures
        trace(b, ox, oy, dx, dy, kx, ky, fuel) == Seq::<Point>::empty(),
    decreases fuel,
{
    if fuel > 0 && within_clip(ox, oy, dx, dy, kx, ky) {
        let nkx = next_kx(ox, oy, dx, dy, kx, ky);
        let nky = next_ky(ox, oy, dx, dy, kx, ky);
        assert(b.in_bounds(
            clamp(ahead_col(dx, nkx), b.cols_spec() as int),
            clamp(ahead_row(oy, dy, nky), b.rows_spec() as int),
        ));
        lemma_empty_trace(b, ox, oy, dx, dy, nkx, nky, (fuel - 1) as nat);
    }
}

/// The tracer's step guard never decides a result: every ray leaves the far
/// clip distance within `2 * FAR_CLIP + 3` grid-line crossings, so any
/// budget from there on (`MAX_STEPS` among them) gives the same hits.
pub proof fn lemma_crossings_bounded_by_far_clip(b: Board, start: Point, dir: Point, fuel: nat)
    requires
        dir.x != 0,
        fuel >= 2 * FAR_CLIP + 3,
    ensures
        ray_hits(b, start, dir) == trace(
            b,
            start.x as int,
            start.y as int,
            dir.x as int,
            dir.y as int,
            first_line(start.x as int, dir.x as int),
            first_line(start.y as int, dir.y as int),
            fuel,
        ),
{
    let (ox, oy, dx, dy) = (start.x as int, start.y as int, dir.x as int, dir.y as int);
    let kx = first_line(ox, dx);
    let ky = first_line(oy, dy);
    lemma_first_line_near(ox, dx);
    lemma_first_line_near(oy, dy);
    let gx = line_gap(kx, ox, dx);
    let gy = line_gap(ky, oy, dy);
    assert((gx - ONE) * abs(dy) <= gy * abs(dx)) by (nonlinear_arith)
        requires
            gx - ONE < 0,
            gy >= 0,
    ;
    assert((gy - ONE) * abs(dx) <= gx * abs(dy)) by (nonlinear_arith)
        requires
            gy - ONE < 0,
            gx >= 0,
    ;
    lemma_fuel_enough(b, ox, oy, dx, dy, kx, ky, MAX_STEPS as nat, fuel);
}

/// `u < far` from `u * u * w * w <= v < far * far * w * w`.
proof fn lemma_below_far(u: int, w: int, v: int, far: int)
    requires
        u >= 0,
        w > 0,
        far > 0,
        u * u * (w * w) <= v,
        v < far * far * (w * w),
    ensures
        u < far,
{
    if u >= far {
        assert(far * far * (w * w) <= u * u * (w * w)) by (nonlinear_arith)
            requires
                u >= far,
                far > 0,
                w > 0,
        ;
    }
}

/// Inside the clip distance neither gap has grown past it (by more than
/// one cell for the axis not crossed).
proof fn lemma_clip_bounds_gaps(ox: int, oy: int, dx: int, dy: int, kx: int, ky: int)
    requires
        dx != 0,
        line_gap(kx, ox, dx) >= 0,
        line_gap(ky, oy, dy) >= 0,
        (line_gap(kx, ox, dx) - ONE) * abs(dy) <= line_gap(ky, oy, dy) * abs(dx),
        (line_gap(ky, oy, dy) - ONE) * abs(dx) <= line_gap(kx, ox, dx) * abs(dy),
        within_clip(ox, oy, dx, dy, kx, ky),
    ensures
        line_gap(kx, ox, dx) + line_gap(ky, oy, dy) < (2 * FAR_CLIP + 1) * ONE,
{
    let gx = line_gap(kx, ox, dx);
    let gy = line_gap(ky, oy, dy);
    let far = FAR_CLIP * ONE;
    let len2 = dx * dx + dy * dy;
    let (ax, ay) = (abs(dx), abs(dy));
    assert(dx * dx == ax * ax && dy * dy == ay * ay) by (nonlinear_arith)
        requires
            ax == abs(dx),
            ay == abs(dy),
    ;
    if crosses_x(ox, oy, dx, dy, kx, ky) {
        assert(gx * gx * (ax * ax) <= gx * gx * len2) by (nonlinear_arith)
            requires
                len2 == ax * ax + ay * ay,
        ;
        lemma_below_far(gx, ax, gx * gx * len2, far);
        if gy - ONE >= 0 {
            let u = gy - ONE;
            assert(u * u * (ax * ax) <= gx * gx * len2) by (nonlinear_arith)
                requires
                    0 <= u,
                    u * ax <= gx * ay,
                    len2 == ax * ax + ay * ay,
                    ax > 0,
                    ay >= 0,
            ;
            lemma_below_far(u, ax, gx * gx * len2, far);
        }
    } else {
        assert(ay > 0);
        assert(gy * gy * (ay * ay) <= gy * gy * len2) by (nonlinear_arith)
            requires
                len2 == ax * ax + ay * ay,
        ;
        lemma_below_far(gy, ay, gy * gy * len2, far);
        if gx - ONE >= 0 {
            let u = gx - ONE;
            assert(u * u * (ay * ay) <= gy * gy * len2) by (nonlinear_arith)
                requires
                    0 <= u,
                    u * ay <= gy * ax,
                    len2 == ax * ax + ay * ay,
                    ay > 0,
                    ax >= 0,
            ;
            lemma_below_far(u, ay, gy * gy * len2, far);
        }
    }
}

/// Two budgets that both cover the crossings left before the clip
/// distance give the same trace.
proof fn lemma_fuel_enough(
    b: Board,
    ox: int,
    oy: int,
    dx: int,
    dy: int,
    kx: int,
    ky: int,
    f1: nat,
    f2: nat,
)
    requires
        dx != 0,
        line_gap(kx, ox, dx) >= 0,
        line_gap(ky, oy, dy) >= 0,
        (line_gap(kx, ox, dx) - ONE) * abs(dy) <= line_gap(ky, oy, dy) * abs(dx),
        (line_gap(ky, oy, dy) - ONE) * abs(dx) <= line_gap(kx, ox, dx) * abs(dy),
        f1 * ONE + line_gap(kx, ox, dx) + line_gap(ky, oy, dy) >= (2 * FAR_CLIP + 3) * ONE,
        f2 * ONE + line_gap(kx, ox, dx) + line_gap(ky, oy, dy) >= (2 * FAR_CLIP + 3) * ONE,
    ensures
        trace(b, ox, oy, dx, dy, kx, ky, f1) == trace(b, ox, oy, dx, dy, kx, ky, f2),
    decreases f1,
{
    if within_clip(ox, oy, dx, dy, kx, ky) {
        lemma_clip_bounds_gaps(ox, oy, dx, dy, kx, ky);
        let gx = line_gap(kx, ox, dx);
        let gy = line_gap(ky, oy, dy);
        let nkx = next_kx(ox, oy, dx, dy, kx, ky);
        let nky = next_ky(ox, oy, dx, dy, kx, ky);
        let ngx = line_gap(nkx, ox, dx);
        let ngy = line_gap(nky, oy, dy);
        let (ax, ay) = (abs(dx), abs(dy));
        let cx = crosses_x(ox, oy, dx, dy, kx, ky);
        let cy = crosses_y(ox, oy, dx, dy, kx, ky);
        assert(cx || cy);
        assert(ngx == if cx { gx + ONE } else { gx });
        assert(ngy == if cy { gy + ONE } else { gy });
        assert((ngx - ONE) * ay <= ngy * ax) by (nonlinear_arith)
            requires
                ngx == if cx { gx + ONE } else { gx },
                ngy == if cy { gy + ONE } else { gy },
                cx ==> ay == 0 || gx * ay <= gy * ax,
                (gx - ONE) * ay <= gy * ax,
                ax > 0,
                ay >= 0,
        ;
        assert((ngy - ONE) * ax <= ngx * ay) by (nonlinear_arith)
            requires
                ngx == if cx { gx + ONE } else { gx },
                ngy == if cy { gy + ONE } else { gy },
                cy ==> gy * ax <= gx * ay,
                (gy - ONE) * ax <= gx * ay,
                ax > 0,
                ay >= 0,
        ;
        lemma_fuel_enough(b, ox, oy, dx, dy, nkx, nky, (f1 - 1) as nat, (f2 - 1) as nat);
    }
}

/// The first grid line lies less than a cell from the origin, ahead of it.
proof fn lemma_first_line_near(o: int, d: int)
    ensures
        abs(first_line(o, d) * ONE - o) < ONE,
        0 <= line_gap(first_line(o, d), o, d) < ONE,
{
    let one = ONE as int;
    vstd::arithmetic::div_mod::lemma_fundamental_div_mod(o, one);
    vstd::arithmetic::div_mod::lemma_fundamental_div_mod(-o, one);
}

fn clamp_index(v: i128, n: usize) -> (r: usize)
    requires
        n > 0,
    ensures
        r == clamp(v as int, n as int),
{
    if v < 0 {
        0
    } else if v >= n as i128 {
        n - 1
    } else {
        v as usize
    }
}

fn first_line_exec(o: i64, d: i64) -> (k: i128)
    ensures
        k == first_line(o as int, d as int),
{
    if d > 0 {
        div_ceil(o as i128, ONE as i128)
    } else {
        div_floor(o as i128, ONE as i128)
    }
}

/// One step of the tracer: the crossing that the ray meets first from the
/// next grid lines `kx` / `ky` on, whether it lies within the far clip
/// distance, and the grid lines to cross after it.
struct RayStep {
    point: Point,
    within: bool,
    next_kx: i128,
    next_ky: i128,
}

/// Compares the ray parameters of the next vertical and the next
/// horizontal grid line (by cross-multiplying, exactly) and steps to the
/// nearer one, or to both at a corner.
fn next_ray_step(start: Point, dir: Point, kx: i128, ky: i128) -> (s: RayStep)
    requires
        coord_ok(start),
        dir_ok(dir),
        dir.x != 0,
        abs(kx * ONE - start.x) <= 49 * ONE,
        abs(ky * ONE - start.y) <= 49 * ONE,
    ensures
        s.within == within_clip(start.x as int, start.y as int, dir.x as int, dir.y as int, kx as int, ky as int),
        s.point == crossing(start.x as int, start.y as int, dir.x as int, dir.y as int, kx as int, ky as int),
        s.next_kx == next_kx(start.x as int, start.y as int, dir.x as int, dir.y as int, kx as int, ky as int),
        s.next_ky == next_ky(start.x as int, start.y as int, dir.x as int, dir.y as int, kx as int, ky as int),
{
    let one = ONE as i128;
    let ox = start.x as i128;
    let oy = start.y as i128;
    let dx = dir.x as i128;
    let dy = dir.y as i128;
    let ax: i128 = if dx < 0 { -dx } else { dx };
    let ay: i128 = if dy < 0 { -dy } else { dy };
    let far2: i128 = 429496729600;
    let gx: i128 = if dx > 0 { kx * one - ox } else { ox - kx * one };
    let gy: i128 = if dy > 0 { ky * one - oy } else { oy - ky * one };
    proof {
        assert((FAR_CLIP * ONE) * (FAR_CLIP * ONE) == 429496729600) by (nonlinear_arith);
        lemma_mul_abs_le(dx as int, dx as int, DIR_LIMIT as int, DIR_LIMIT as int);
        lemma_mul_abs_le(dy as int, dy as int, DIR_LIMIT as int, DIR_LIMIT as int);
        lemma_mul_abs_le(gx as int, ay as int, 3211264, DIR_LIMIT as int);
        lemma_mul_abs_le(gy as int, ax as int, 3211264, DIR_LIMIT as int);
        lemma_mul_abs_le(gx as int, gx as int, 3211264, 3211264);
        lemma_mul_abs_le(gy as int, gy as int, 3211264, 3211264);
        lemma_mul_abs_le(gx as int, dy as int, 3211264, DIR_LIMIT as int);
        lemma_mul_abs_le(gy as int, dx as int, 3211264, DIR_LIMIT as int);
        lemma_mul_abs_le(gx * gx, dx * dx + dy * dy, 3211264int * 3211264, 2 * DIR_LIMIT * DIR_LIMIT);
        lemma_mul_abs_le(gy * gy, dx * dx + dy * dy, 3211264int * 3211264, 2 * DIR_LIMIT * DIR_LIMIT);
        lemma_mul_abs_le(far2 as int, dx * dx, far2 as int, DIR_LIMIT * DIR_LIMIT);
        lemma_mul_abs_le(far2 as int, dy * dy, far2 as int, DIR_LIMIT * DIR_LIMIT);
        lemma_div_abs_le(gx * dy, ax as int);
        if ay > 0 {
            lemma_div_abs_le(gy * dx, ay as int);
        }
    }
    let len2 = dx * dx + dy * dy;
    let on_x = dy == 0 || gx * ay <= gy * ax;
    let on_y = dy != 0 && gy * ax <= gx * ay;
    let within = if on_x {
        gx * gx * len2 < far2 * (dx * dx)
    } else {
        gy * gy * len2 < far2 * (dy * dy)
    };
    let point = if on_x {
        let py = oy + div_floor(gx * dy, ax);
        Point { x: (kx * one) as i64, y: py as i64 }
    } else {
        let px = ox + div_floor(gy * dx, ay);
        Point { x: px as i64, y: (ky * one) as i64 }
    };
    let next_kx: i128 = if on_x {
        if dx > 0 { kx + 1 } else { kx - 1 }
    } else {
        kx
    };
    let next_ky: i128 = if on_y {
        if dy > 0 { ky + 1 } else { ky - 1 }
    } else {
        ky
    };
    RayStep { point, within, next_kx, next_ky }
}

/// Follows the ray from `start` in direction `dir` across the board and
/// returns its hits, nearest first: translucent cells, then at most one
/// cell that stops it, all nearer than the far clip distance.
pub fn cast_ray(start: Point, dir: Point, board: &Board) -> (hits: Vec<Point>)
    requires
        board.wf(),
        board.rows_spec() > 0,
        board.cols_spec() > 0,
        coord_ok(start),
        dir_ok(dir),
        dir.x != 0 || dir.y != 0,
    ensures
        hits@ == ray_hits(*board, start, dir),
{
    let one = ONE as i128;
    if dir.x == 0 {
        let fx = div_floor(start.x as i128, one);
        let row = if dir.y > 0 {
            div_floor(start.y as i128, one)
        } else {
            div_ceil(start.y as i128, one) - 1
        };
        proof {
            lemma_first_line_near(start.x as int, 0);
        }
        let c = board.at(clamp_index(fx - 1, board.cols()), clamp_index(row, board.rows()));
        match c {
            Cell::Empty => {
                return Vec::new();
            },
            _ => {
                let p = Point { x: (fx * one) as i64, y: start.y };
                return vec![p];
            },
        }
    }
    let ghost (gox, goy, gdx, gdy) = (start.x as int, start.y as int, dir.x as int, dir.y as int);
    let oy = start.y as i128;
    let mut kx = first_line_exec(start.x, dir.x);
    let mut ky = first_line_exec(start.y, dir.y);
    let ghost kx0 = kx as int;
    let ghost ky0 = ky as int;
    proof {
        lemma_first_line_near(gox, gdx);
        lemma_first_line_near(goy, gdy);
    }
    let mut hits: Vec<Point> = Vec::new();
    let mut steps: usize = 0;
    assert(ray_hits(*board, start, dir) == trace(
        *board,
        gox,
        goy,
        gdx,
        gdy,
        kx0,
        ky0,
        MAX_STEPS as nat,
    ));
    while steps < MAX_STEPS
        invariant
            board.wf(),
            board.rows_spec() > 0,
            board.cols_spec() > 0,
            coord_ok(start),
            dir_ok(dir),
            dir.x != 0,
            gox == start.x && goy == oy && gdx == dir.x && gdy == dir.y,
            oy == start.y,
            ray_hits(*board, start, dir) == trace(*board, gox, goy, gdx, gdy, kx0, ky0, MAX_STEPS as nat),
            one == ONE,
            steps <= MAX_STEPS,
            abs(kx0 * ONE - gox) < ONE,
            abs(ky0 * ONE - goy) < ONE,
            abs(kx - kx0) <= steps,
            abs(ky - ky0) <= steps,
            hits@ + trace(*board, gox, goy, gdx, gdy, kx as int, ky as int, (MAX_STEPS - steps) as nat)
                == trace(*board, gox, goy, gdx, gdy, kx0, ky0, MAX_STEPS as nat),
        decreases MAX_STEPS - steps,
    {
        proof {
            assert(abs(kx * ONE - gox) <= 49 * ONE);
            assert(abs(ky * ONE - goy) <= 49 * ONE);
        }
        let step = next_ray_step(start, dir, kx, ky);
        if !step.within {
            assert(hits@ + Seq::<Point>::empty() == hits@);
            return hits;
        }
        let p = step.point;
        let nkx = step.next_kx;
        let nky = step.next_ky;
        let col: i128 = if dir.x > 0 { nkx - 1 } else { nkx };
        let row: i128 = if dir.y > 0 {
            nky - 1
        } else if dir.y < 0 {
            nky
        } else {
            div_ceil(oy, one) - 1
        };
        let c = board.at(clamp_index(col, board.cols()), clamp_index(row, board.rows()));
        let ghost fuel = (MAX_STEPS - steps) as nat;
        let ghost here = trace(*board, gox, goy, gdx, gdy, kx as int, ky as int, fuel);
        let ghost rest = trace(*board, gox, goy, gdx, gdy, nkx as int, nky as int, (fuel - 1) as nat);
        let ghost before = hits@;
        proof {
            assert(c == ahead_cell(*board, gox, goy, gdx, gdy, kx as int, ky as int));
        }
        kx = nkx;
        ky = nky;
        steps = steps + 1;
        match c {
            Cell::Empty => {
                assert(here == rest);
            },
            Cell::TranslucentTexture(_) => {
                hits.push(p);
                assert(here == seq![p] + rest);
                assert(hits@ + rest == before + here);
            },
            _ => {
                hits.push(p);
                assert(here == seq![p]);
                assert(hits@ == before + here);
                return hits;
            },
        }
    }
    assert(hits@ + Seq::<Point>::empty() == hits@);
    hits
}

} // verus!

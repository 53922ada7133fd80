//! Fanning a field of view into rays and sampling what each one hits.

use vstd::prelude::*;
use crate::geometry::{
    Point, ONE, DIR_LIMIT, coord_ok, dir_ok, floor_div, ceil_div, abs, div_floor, div_ceil,
};
use crate::board::{Board, Cell};
use crate::player::{Player, Rotation, rotation_ok, inverse, rotated, rotate, bounded};
use crate::raycast::{ray_hits, cast_ray};

verus! {

/// Cosine of half the default field of view (a quarter turn), fixed-point.
pub const HALF_FOV_COS: i64 = 46341;

/// Sine of half the default field of view, fixed-point.
pub const HALF_FOV_SIN: i64 = 46341;

/// Largest number of columns a field of view is sampled into.
pub const MAX_RAYS: usize = 65536;

/// One sampled hit: the cell it belongs to and where the ray met it.
pub type Sample = (Cell, Point);

/// The entry every column starts with, so that none is ever empty.
pub open spec fn sentinel() -> Sample {
    (Cell::Empty, Point { x: 0, y: 0 })
}

/// Index of the cell ahead of coordinate `v` along an axis travelled with
/// sign `d`.
pub open spec fn cell_index(v: int, d: int) -> int {
    if d > 0 {
        floor_div(v, ONE as int)
    } else {
        ceil_div(v, ONE as int) - 1
    }
}

pub open spec fn at_least_zero(v: int) -> int {
    if v < 0 {
        0
    } else {
        v
    }
}

/// The cell that a hit `p` of a ray in direction `d` belongs to: the cell
/// ahead of it, or `Empty` where `p` lies outside the board.
pub open spec fn owning_cell(b: Board, d: Point, p: Point) -> Cell {
    if 0 <= p.x < b.cols_spec() * ONE && 0 <= p.y < b.rows_spec() * ONE {
        b.cell(
            at_least_zero(cell_index(p.x as int, d.x as int)),
            at_least_zero(cell_index(p.y as int, d.y as int)),
        )
    } else {
        Cell::Empty
    }
}

/// Each hit paired with its owning cell.
pub open spec fn tag_hits(b: Board, d: Point, hits: Seq<Point>) -> Seq<Sample> {
    hits.map_values(|p: Point| (owning_cell(b, d, p), p))
}

/// The sentinel, then the hits of the ray from the player in direction
/// `d`; a zero direction casts nothing.
pub open spec fn column_samples(b: Board, p: Player, d: Point) -> Seq<Sample> {
    if d.x == 0 && d.y == 0 {
        seq![sentinel()]
    } else {
        seq![sentinel()] + tag_hits(b, d, ray_hits(b, p.pos, d))
    }
}

/// Direction of the leftmost ray: the facing direction rotated by half the
/// field of view.
pub open spec fn fan_start(p: Player, half: Rotation) -> Point {
    rotated(p.dir, half)
}

/// Direction of the rightmost ray.
pub open spec fn fan_end(p: Player, half: Rotation) -> Point {
    rotated(p.dir, inverse(half))
}

/// Per-column change of direction: the straight-line difference between
/// the two extremes, split into `n` equal steps (rounded down).
pub open spec fn fan_step(p: Player, half: Rotation, n: int) -> Point {
    Point {
        x: floor_div(fan_end(p, half).x - fan_start(p, half).x, n) as i64,
        y: floor_div(fan_end(p, half).y - fan_start(p, half).y, n) as i64,
    }
}

/// Direction of the ray of column `i`.
pub open spec fn fan_dir(p: Player, half: Rotation, n: int, i: int) -> Point {
    Point {
        x: (fan_start(p, half).x + i * fan_step(p, half, n).x) as i64,
        y: (fan_start(p, half).y + i * fan_step(p, half, n).y) as i64,
    }
}

/// What column `i` of `n` holds.
pub open spec fn fan_column(b: Board, p: Player, half: Rotation, n: int, i: int) -> Seq<Sample> {
    column_samples(b, p, fan_dir(p, half, n, i))
}

/// The owning cell of hit `p` of a ray in direction `d`.
pub fn owning_cell_of(board: &Board, d: Point, p: Point) -> (c: Cell)
    requires
        board.wf(),
    ensures
        c == owning_cell(*board, d, p),
{
    let one = ONE as i128;
    let px = p.x as i128;
    let py = p.y as i128;
    if 0 <= px && px < board.cols() as i128 * one && 0 <= py && py < board.rows() as i128 * one {
        let ix = if d.x > 0 {
            div_floor(px, one)
        } else {
            div_ceil(px, one) - 1
        };
        let iy = if d.y > 0 {
            div_floor(py, one)
        } else {
            div_ceil(py, one) - 1
        };
        proof {
            lemma_index_below(px as int, d.x as int, board.cols_spec() as int);
            lemma_index_below(py as int, d.y as int, board.rows_spec() as int);
        }
        let x: usize = if ix < 0 { 0 } else { ix as usize };
        let y: usize = if iy < 0 { 0 } else { iy as usize };
        board.at(x, y)
    } else {
        Cell::Empty
    }
}

proof fn lemma_index_below(v: int, d: int, n: int)
    requires
        0 <= v < n * ONE,
    ensures
        cell_index(v, d) < n,
        cell_index(v, d) >= -1,
{
    let one = ONE as int;
    vstd::arithmetic::div_mod::lemma_fundamental_div_mod(v, one);
    vstd::arithmetic::div_mod::lemma_fundamental_div_mod(-v, one);
    assert(v / one < n) by (nonlinear_arith)
        requires
            v == (v / one) * one + v % one,
            0 <= v % one,
            v < n * one,
            one > 0,
    ;
    assert(-((-v) / one) <= n) by (nonlinear_arith)
        requires
            -v == ((-v) / one) * one + (-v) % one,
            (-v) % one < one,
            v < n * one,
            one > 0,
    ;
    assert(-((-v) / one) >= 0) by (nonlinear_arith)
        requires
            -v == ((-v) / one) * one + (-v) % one,
            0 <= (-v) % one < one,
            v >= 0,
            one > 0,
    ;
    assert(v / one >= 0) by (nonlinear_arith)
        requires
            v == (v / one) * one + v % one,
            v % one < one,
            v >= 0,
            one > 0,
    ;
}

/// The samples of one column: the sentinel, then the hits of the ray from
/// the player in direction `d`, each with its owning cell.
pub fn sample_column(board: &Board, player: &Player, d: Point) -> (col: Vec<Sample>)
    requires
        board.wf(),
        board.rows_spec() > 0,
        board.cols_spec() > 0,
        coord_ok(player.pos),
        dir_ok(d),
    ensures
        col@ == column_samples(*board, *player, d),
{
    let mut col: Vec<Sample> = vec![(Cell::Empty, Point { x: 0, y: 0 })];
    if d.x == 0 && d.y == 0 {
        return col;
    }
    let hits = cast_ray(player.pos, d, board);
    let mut j: usize = 0;
    while j < hits.len()
        invariant
            board.wf(),
            j <= hits@.len(),
            col@ == seq![sentinel()] + tag_hits(*board, d, hits@.subrange(0, j as int)),
        decreases hits@.len() - j,
    {
        let p = hits[j];
        let c = owning_cell_of(board, d, p);
        col.push((c, p));
        proof {
            assert(hits@.subrange(0, j + 1) =~= hits@.subrange(0, j as int).push(p));
            assert(tag_hits(*board, d, hits@.subrange(0, j + 1)) =~= tag_hits(
                *board,
                d,
                hits@.subrange(0, j as int),
            ).push((c, p)));
        }
        j = j + 1;
    }
    assert(hits@.subrange(0, j as int) =~= hits@);
    col
}

proof fn lemma_fan_offset(delta: int, n: int, i: int)
    requires
        n > 0,
        0 <= i <= n,
    ensures
        abs(i * floor_div(delta, n)) <= abs(delta) + n,
{
    let q = delta / n;
    vstd::arithmetic::div_mod::lemma_fundamental_div_mod(delta, n);
    assert(abs(q) * n <= abs(delta) + n) by (nonlinear_arith)
        requires
            delta == q * n + delta % n,
            0 <= delta % n < n,
    ;
    assert(abs(i * q) <= abs(q) * n) by (nonlinear_arith)
        requires
            0 <= i <= n,
    ;
}

/// Fans `n` rays across the field of view whose half-angle is `half`,
/// from the leftmost direction to the rightmost in equal straight-line
/// steps, and samples each: column `i` holds the sentinel, then the hits of
/// ray `i` with their owning cells.
pub fn get_hitted_cells(board: &Board, player: &Player, half: Rotation, n: usize) -> (columns: Vec<
    Vec<Sample>,
>)
    requires
        board.wf(),
        board.rows_spec() > 0,
        board.cols_spec() > 0,
        coord_ok(player.pos),
        bounded(player.dir, DIR_LIMIT / 8),
        rotation_ok(half),
        0 < n <= MAX_RAYS,
    ensures
        columns@.len() == n,
        forall|i: int|
            0 <= i < n ==> (#[trigger] columns@[i])@ == fan_column(*board, *player, half, n as int, i),
        forall|i: int|
            0 <= i < n ==> (#[trigger] columns@[i])@.len() >= 1 && columns@[i]@[0] == sentinel(),
{
    let start = rotate(player.dir, half);
    let end = rotate(player.dir, Rotation { cos: half.cos, sin: -half.sin });
    let ghost step = fan_step(*player, half, n as int);
    let sx = div_floor(end.x as i128 - start.x as i128, n as i128);
    let sy = div_floor(end.y as i128 - start.y as i128, n as i128);
    proof {
        lemma_fan_offset(end.x - start.x, n as int, 1);
        lemma_fan_offset(end.y - start.y, n as int, 1);
    }
    let step_x = sx as i64;
    let step_y = sy as i64;
    let mut columns: Vec<Vec<Sample>> = Vec::new();
    let mut dir = start;
    let mut i: usize = 0;
    while i < n
        invariant
            board.wf(),
            board.rows_spec() > 0,
            board.cols_spec() > 0,
            coord_ok(player.pos),
            0 < n <= MAX_RAYS,
            i <= n,
            start == fan_start(*player, half),
            end == fan_end(*player, half),
            bounded(start, DIR_LIMIT / 4 + 1),
            bounded(end, DIR_LIMIT / 4 + 1),
            step_x == step.x && step_y == step.y,
            step == fan_step(*player, half, n as int),
            step.x == floor_div(end.x - start.x, n as int),
            step.y == floor_div(end.y - start.y, n as int),
            dir == fan_dir(*player, half, n as int, i as int),
            columns@.len() == i,
            forall|k: int|
                0 <= k < i ==> (#[trigger] columns@[k])@ == fan_column(
                    *board,
                    *player,
                    half,
                    n as int,
                    k,
                ),
        decreases n - i,
    {
        proof {
            lemma_fan_offset(end.x - start.x, n as int, i as int);
            lemma_fan_offset(end.y - start.y, n as int, i as int);
            lemma_fan_offset(end.x - start.x, n as int, i + 1);
            lemma_fan_offset(end.y - start.y, n as int, i + 1);
            assert((i + 1) * step.x == i * step.x + step.x) by (nonlinear_arith);
            assert((i + 1) * step.y == i * step.y + step.y) by (nonlinear_arith);
        }
        let col = sample_column(board, player, dir);
        columns.push(col);
        dir = Point { x: dir.x + step_x, y: dir.y + step_y };
        i = i + 1;
    }
    columns
}

} // verus!

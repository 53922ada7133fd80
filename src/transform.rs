//! Affine 2D transforms (scale, then offset) and the minimap's layout.

use vstd::prelude::*;
use crate::geometry::{Point, ONE, floor_div, abs, div_floor, lemma_mul_abs_le, lemma_div_abs_le};
use crate::board::Board;

verus! {

/// Largest magnitude of a zoom factor component, fixed-point (256 times).
pub const ZOOM_LIMIT: i64 = 16777216;

/// Largest magnitude of an offset, or of a point or size transformed.
pub const SPAN_LIMIT: i64 = 68719476736;

/// Share of the window's shorter side taken by the minimap, in percent.
pub const MINIMAP_PERCENT: i64 = 20;

/// An axis-aligned rectangle in fixed-point units.
#[derive(Clone, Copy, Debug, PartialEq, Eq, Structural)]
pub struct Rect {
    pub x: i64,
    pub y: i64,
    pub width: i64,
    pub height: i64,
}

/// Scale per axis (fixed-point, `ONE` is unit scale), then shift by the offset.
#[derive(Clone, Copy, Debug, PartialEq, Eq, Structural)]
pub struct Transform2D {
    pub offset: Point,
    pub zoom: Point,
}

pub open spec fn within(v: int, m: int) -> bool {
    abs(v) <= m
}

pub open spec fn transform_ok(t: Transform2D) -> bool {
    within(t.zoom.x as int, ZOOM_LIMIT as int) && within(t.zoom.y as int, ZOOM_LIMIT as int)
        && within(t.offset.x as int, SPAN_LIMIT as int) && within(
        t.offset.y as int,
        SPAN_LIMIT as int,
    )
}

pub open spec fn span_ok(p: Point) -> bool {
    within(p.x as int, SPAN_LIMIT as int) && within(p.y as int, SPAN_LIMIT as int)
}

/// `v * z` for fixed-point numbers, rounded down.
pub open spec fn scale(v: int, z: int) -> int {
    floor_div(v * z, ONE as int)
}

/// `v` scaled by the zoom alone (for directions and sizes).
pub open spec fn zoomed(t: Transform2D, v: Point) -> Point {
    Point { x: scale(v.x as int, t.zoom.x as int) as i64, y: scale(v.y as int, t.zoom.y as int) as i64 }
}

/// `v` scaled, then moved by the offset (for positions).
pub open spec fn applied(t: Transform2D, v: Point) -> Point {
    Point {
        x: (scale(v.x as int, t.zoom.x as int) + t.offset.x) as i64,
        y: (scale(v.y as int, t.zoom.y as int) + t.offset.y) as i64,
    }
}

pub open spec fn rect_zoomed(t: Transform2D, r: Rect) -> Rect {
    Rect {
        x: scale(r.x as int, t.zoom.x as int) as i64,
        y: scale(r.y as int, t.zoom.y as int) as i64,
        width: scale(r.width as int, t.zoom.x as int) as i64,
        height: scale(r.height as int, t.zoom.y as int) as i64,
    }
}

pub open spec fn rect_applied(t: Transform2D, r: Rect) -> Rect {
    Rect {
        x: (scale(r.x as int, t.zoom.x as int) + t.offset.x) as i64,
        y: (scale(r.y as int, t.zoom.y as int) + t.offset.y) as i64,
        width: scale(r.width as int, t.zoom.x as int) as i64,
        height: scale(r.height as int, t.zoom.y as int) as i64,
    }
}

/// Zooming a vector is applying the transform and taking the offset back
/// off: `apply_zoom(v) == apply(v) - offset`, exactly, for points and for
/// rectangles (whose size the two treat alike).
pub proof fn lemma_zoom_is_apply_without_offset(t: Transform2D, v: Point, r: Rect)
    requires
        transform_ok(t),
        span_ok(v),
        within(r.x as int, SPAN_LIMIT as int),
        within(r.y as int, SPAN_LIMIT as int),
    ensures
        zoomed(t, v).x == applied(t, v).x - t.offset.x,
        zoomed(t, v).y == applied(t, v).y - t.offset.y,
        rect_zoomed(t, r).x == rect_applied(t, r).x - t.offset.x,
        rect_zoomed(t, r).y == rect_applied(t, r).y - t.offset.y,
        rect_zoomed(t, r).width == rect_applied(t, r).width,
        rect_zoomed(t, r).height == rect_applied(t, r).height,
{
    lemma_scale_bound(v.x as int, t.zoom.x as int);
    lemma_scale_bound(v.y as int, t.zoom.y as int);
    lemma_scale_bound(r.x as int, t.zoom.x as int);
    lemma_scale_bound(r.y as int, t.zoom.y as int);
}

/// `v * z / ONE`, rounded down, for the bounded values a transform takes.
fn scale_exec(v: i64, z: i64) -> (r: i64)
    requires
        within(v as int, SPAN_LIMIT as int),
        within(z as int, ZOOM_LIMIT as int),
    ensures
        r == scale(v as int, z as int),
        within(r as int, SPAN_LIMIT * 256),
{
    proof {
        lemma_mul_abs_le(v as int, z as int, SPAN_LIMIT as int, ZOOM_LIMIT as int);
        lemma_scale_bound(v as int, z as int);
    }
    div_floor(v as i128 * z as i128, ONE as i128) as i64
}

proof fn lemma_scale_bound(v: int, z: int)
    requires
        abs(v) <= SPAN_LIMIT,
        abs(z) <= ZOOM_LIMIT,
    ensures
        abs(scale(v, z)) <= SPAN_LIMIT * 256,
{
    let one = ONE as int;
    lemma_mul_abs_le(v, z, SPAN_LIMIT as int, ZOOM_LIMIT as int);
    let w = v * z;
    vstd::arithmetic::div_mod::lemma_fundamental_div_mod(w, one);
    let q = w / one;
    assert(abs(q) <= SPAN_LIMIT * 256) by (nonlinear_arith)
        requires
            w == q * one + w % one,
            0 <= w % one < one,
            abs(w) <= SPAN_LIMIT * ZOOM_LIMIT,
            one == 65536,
            ZOOM_LIMIT == 256 * 65536,
    ;
}

impl Transform2D {
    /// The identity: no offset, unit zoom.
    pub fn default() -> (t: Transform2D)
        ensures
            t.offset == (Point { x: 0, y: 0 }),
            t.zoom == (Point { x: ONE, y: ONE }),
    {
        Transform2D { offset: Point { x: 0, y: 0 }, zoom: Point { x: ONE, y: ONE } }
    }

    /// The minimap's transform: the board (`cols` by `rows` cells) scaled
    /// to `size` pixels (as `calculate_minimap_size` gives it) and placed in
    /// the window's lower right corner, `margin` away from both edges.
    pub fn minimap(window: Point, size: Point, cols: u64, rows: u64, margin: i64) -> (t: Transform2D)
        requires
            0 < cols,
            0 < rows,
            0 <= size.x <= SPAN_LIMIT,
            0 <= size.y <= SPAN_LIMIT,
            span_ok(window),
            0 <= margin <= SPAN_LIMIT,
        ensures
            t.zoom.x == floor_div(size.x as int, cols as int),
            t.zoom.y == floor_div(size.y as int, rows as int),
            t.offset.x == window.x - size.x - margin,
            t.offset.y == window.y - size.y - margin,
    {
        let zx = (size.x as u64) / cols;
        let zy = (size.y as u64) / rows;
        Transform2D {
            offset: Point { x: window.x - size.x - margin, y: window.y - size.y - margin },
            zoom: Point { x: zx as i64, y: zy as i64 },
        }
    }

    /// The board cell under screen point `mouse`, if it falls inside the
    /// board's image.
    pub fn cell_under(&self, board: &Board, mouse: Point) -> (c: Option<(usize, usize)>)
        requires
            board.wf(),
            0 < self.zoom.x <= ZOOM_LIMIT,
            0 < self.zoom.y <= ZOOM_LIMIT,
            span_ok(self.offset),
            span_ok(mouse),
        ensures
            c == unzoomed_cell(*self, board.cols_spec() as int, board.rows_spec() as int, mouse),
    {
        let one = ONE as i128;
        let ux = div_floor((mouse.x as i128 - self.offset.x as i128) * one, self.zoom.x as i128);
        let uy = div_floor((mouse.y as i128 - self.offset.y as i128) * one, self.zoom.y as i128);
        if 0 <= ux && ux < board.cols() as i128 * one && 0 <= uy && uy < board.rows() as i128 * one {
            let x = div_floor(ux, one);
            let y = div_floor(uy, one);
            proof {
                lemma_cell_of_unit(ux as int, board.cols_spec() as int);
                lemma_cell_of_unit(uy as int, board.rows_spec() as int);
            }
            Some((x as usize, y as usize))
        } else {
            None
        }
    }
}

/// The centre of cell `(x, y)`, in board units.
pub open spec fn cell_center(x: int, y: int) -> Point {
    Point { x: (x * ONE + ONE / 2) as i64, y: (y * ONE + ONE / 2) as i64 }
}

impl Transform2D {
    /// Where a click at screen point `mouse` on the minimap moves the
    /// player: the centre of the cell under it, if it falls on the board.
    pub fn click_target(&self, board: &Board, mouse: Point) -> (r: Option<Point>)
        requires
            board.wf(),
            0 < self.zoom.x <= ZOOM_LIMIT,
            0 < self.zoom.y <= ZOOM_LIMIT,
            span_ok(self.offset),
            span_ok(mouse),
        ensures
            r == match unzoomed_cell(*self, board.cols_spec() as int, board.rows_spec() as int, mouse) {
                Some((x, y)) => Some(cell_center(x as int, y as int)),
                None => None::<Point>,
            },
    {
        match self.cell_under(board, mouse) {
            Some((x, y)) => {
                proof {
                    lemma_unzoomed_cell_small(*self, board.cols_spec() as int, board.rows_spec() as int, mouse);
                }
                Some(Point { x: x as i64 * ONE + ONE / 2, y: y as i64 * ONE + ONE / 2 })
            },
            None => None,
        }
    }
}

proof fn lemma_unzoomed_cell_small(t: Transform2D, cols: int, rows: int, mouse: Point)
    requires
        0 < t.zoom.x,
        0 < t.zoom.y,
        span_ok(t.offset),
        span_ok(mouse),
    ensures
        unzoomed_cell(t, cols, rows, mouse) matches Some((x, y)) ==> x <= SPAN_LIMIT * 2 && y
            <= SPAN_LIMIT * 2,
{
    let one = ONE as int;
    let vx = (mouse.x - t.offset.x) * one;
    let vy = (mouse.y - t.offset.y) * one;
    let ux = floor_div(vx, t.zoom.x as int);
    let uy = floor_div(vy, t.zoom.y as int);
    lemma_div_abs_le(vx, t.zoom.x as int);
    lemma_div_abs_le(vy, t.zoom.y as int);
    if 0 <= ux && 0 <= uy {
        lemma_div_abs_le(ux, one);
        lemma_div_abs_le(uy, one);
        vstd::arithmetic::div_mod::lemma_fundamental_div_mod(ux, one);
        vstd::arithmetic::div_mod::lemma_fundamental_div_mod(uy, one);
        assert(ux / one <= SPAN_LIMIT * 2) by (nonlinear_arith)
            requires
                ux == (ux / one) * one + ux % one,
                0 <= ux % one,
                ux <= abs(vx),
                abs(vx) <= 2 * SPAN_LIMIT * one,
                one == 65536,
        ;
        assert(uy / one <= SPAN_LIMIT * 2) by (nonlinear_arith)
            requires
                uy == (uy / one) * one + uy % one,
                0 <= uy % one,
                uy <= abs(vy),
                abs(vy) <= 2 * SPAN_LIMIT * one,
                one == 65536,
        ;
    }
}

/// Screen point `mouse` taken back to board units, then to the cell it
/// lies in, if any.
pub open spec fn unzoomed_cell(t: Transform2D, cols: int, rows: int, mouse: Point) -> Option<
    (usize, usize),
> {
    let ux = floor_div((mouse.x - t.offset.x) * ONE, t.zoom.x as int);
    let uy = floor_div((mouse.y - t.offset.y) * ONE, t.zoom.y as int);
    if 0 <= ux < cols * ONE && 0 <= uy < rows * ONE {
        Some((floor_div(ux, ONE as int) as usize, floor_div(uy, ONE as int) as usize))
    } else {
        None
    }
}

proof fn lemma_cell_of_unit(u: int, n: int)
    requires
        0 <= u < n * ONE,
    ensures
        0 <= floor_div(u, ONE as int) < n,
{
    let one = ONE as int;
    vstd::arithmetic::div_mod::lemma_fundamental_div_mod(u, one);
    assert(0 <= u / one < n) by (nonlinear_arith)
        requires
            u == (u / one) * one + u % one,
            0 <= u % one < one,
            0 <= u < n * one,
            one > 0,
    ;
}

/// Size of the minimap in pixel units for a window and a board of `cols`
/// by `rows` cells: its longer side takes `MINIMAP_PERCENT` of the window,
/// the other follows the board's aspect ratio.
pub open spec fn minimap_size(window: Point, cols: int, rows: int) -> Point {
    if cols > rows {
        let x = floor_div(window.x * MINIMAP_PERCENT, 100);
        Point { x: x as i64, y: floor_div(x * rows, cols) as i64 }
    } else {
        let y = floor_div(window.y * MINIMAP_PERCENT, 100);
        Point { x: floor_div(y * cols, rows) as i64, y: y as i64 }
    }
}

/// The minimap's size for a window and a board of `cols` by `rows` cells.
pub fn calculate_minimap_size(window: Point, cols: u32, rows: u32) -> (s: Point)
    requires
        0 < cols,
        0 < rows,
        0 <= window.x <= SPAN_LIMIT,
        0 <= window.y <= SPAN_LIMIT,
    ensures
        s == minimap_size(window, cols as int, rows as int),
{
    if cols > rows {
        let x = window.x * MINIMAP_PERCENT / 100;
        proof {
            assert(x * rows <= SPAN_LIMIT * 0x1_0000_0000) by (nonlinear_arith)
                requires
                    0 <= x <= SPAN_LIMIT,
                    0 <= rows <= 0x1_0000_0000,
            ;
            assert((x * rows) / (cols as int) <= x * rows) by (nonlinear_arith)
                requires
                    0 <= x * rows,
                    cols >= 1,
            ;
        }
        let y = (x as i128 * rows as i128) / cols as i128;
        Point { x, y: y as i64 }
    } else {
        let y = window.y * MINIMAP_PERCENT / 100;
        proof {
            assert(y * cols <= SPAN_LIMIT * 0x1_0000_0000) by (nonlinear_arith)
                requires
                    0 <= y <= SPAN_LIMIT,
                    0 <= cols <= 0x1_0000_0000,
            ;
            assert((y * cols) / (rows as int) <= y * cols) by (nonlinear_arith)
                requires
                    0 <= y * cols,
                    rows >= 1,
            ;
        }
        let x = (y as i128 * cols as i128) / rows as i128;
        Point { x: x as i64, y }
    }
}

impl Point {
    /// This position under `t`: scaled, then moved by the offset.
    pub fn apply(&self, t: &Transform2D) -> (r: Point)
        requires
            transform_ok(*t),
            span_ok(*self),
        ensures
            r == applied(*t, *self),
    {
        Point {
            x: scale_exec(self.x, t.zoom.x) + t.offset.x,
            y: scale_exec(self.y, t.zoom.y) + t.offset.y,
        }
    }

    /// This vector under `t`'s zoom alone.
    pub fn apply_zoom(&self, t: &Transform2D) -> (r: Point)
        requires
            transform_ok(*t),
            span_ok(*self),
        ensures
            r == zoomed(*t, *self),
    {
        Point { x: scale_exec(self.x, t.zoom.x), y: scale_exec(self.y, t.zoom.y) }
    }
}

impl Rect {
    /// This rectangle under `t`: its corner moved as a position, its size
    /// scaled.
    pub fn apply(&self, t: &Transform2D) -> (r: Rect)
        requires
            transform_ok(*t),
            within(self.x as int, SPAN_LIMIT as int),
            within(self.y as int, SPAN_LIMIT as int),
            within(self.width as int, SPAN_LIMIT as int),
            within(self.height as int, SPAN_LIMIT as int),
        ensures
            r == rect_applied(*t, *self),
    {
        Rect {
            x: scale_exec(self.x, t.zoom.x) + t.offset.x,
            y: scale_exec(self.y, t.zoom.y) + t.offset.y,
            width: scale_exec(self.width, t.zoom.x),
            height: scale_exec(self.height, t.zoom.y),
        }
    }

    /// This rectangle under `t`'s zoom alone.
    pub fn apply_zoom(&self, t: &Transform2D) -> (r: Rect)
        requires
            transform_ok(*t),
            within(self.x as int, SPAN_LIMIT as int),
            within(self.y as int, SPAN_LIMIT as int),
            within(self.width as int, SPAN_LIMIT as int),
            within(self.height as int, SPAN_LIMIT as int),
        ensures
            r == rect_zoomed(*t, *self),
    {
        Rect {
            x: scale_exec(self.x, t.zoom.x),
            y: scale_exec(self.y, t.zoom.y),
            width: scale_exec(self.width, t.zoom.x),
            height: scale_exec(self.height, t.zoom.y),
        }
    }
}

} // verus!

use raycaster::board::{Board, BoardError, Cell, Color, Texture};
use raycaster::fov::{get_hitted_cells, owning_cell_of, HALF_FOV_COS, HALF_FOV_SIN};
use raycaster::geometry::{Point, ONE};
use raycaster::player::{Controls, Player, Rotation};
use raycaster::projection::{
    column_height, column_top, perpendicular_distance, project_column, project_view, texture_region,
    Paint,
};
use raycaster::raycast::cast_ray;
use raycaster::transform::{calculate_minimap_size, Rect, Transform2D};

const BLUE: Color = Color { r: 0, g: 121, b: 241, a: 255 };
const HALF: i64 = ONE / 2;

fn p(x: i64, y: i64) -> Point {
    Point::new(x, y)
}

fn texture(id: u32) -> Texture {
    Texture { id, width: 64, height: 32 }
}

#[test]
fn new_board_is_all_empty() {
    let b = Board::new(3, 4);
    assert_eq!(b.rows(), 3);
    assert_eq!(b.cols(), 4);
    for y in 0..3 {
        for x in 0..4 {
            assert_eq!(b.at(x, y), Cell::Empty);
        }
    }
}

#[test]
fn set_then_at_returns_the_cell() {
    let mut b = Board::new(3, 4);
    b.set(3, 2, Cell::SolidColor(BLUE));
    b.set(0, 1, Cell::TranslucentTexture(texture(7)));
    assert_eq!(b.at(3, 2), Cell::SolidColor(BLUE));
    assert_eq!(b.at(0, 1), Cell::TranslucentTexture(texture(7)));
    assert_eq!(b.at(2, 2), Cell::Empty);
    assert_eq!(b.at(3, 1), Cell::Empty);
}

#[test]
fn empty_board_gives_no_hits() {
    let b = Board::new(10, 10);
    for d in [p(ONE, 0), p(-ONE, 0), p(0, ONE), p(ONE, ONE), p(-ONE, 3 * HALF), p(5, -ONE)] {
        assert!(cast_ray(p(HALF, HALF), d, &b).is_empty());
        assert!(cast_ray(p(5 * ONE + 1234, 4 * ONE + 777), d, &b).is_empty());
    }
}

#[test]
fn solid_cell_stops_the_ray() {
    let mut b = Board::new(10, 10);
    b.set(3, 0, Cell::SolidColor(BLUE));
    let hits = cast_ray(p(HALF, HALF), p(ONE, 0), &b);
    assert_eq!(hits, vec![p(3 * ONE, HALF)]);
    let x = hits[0].x as f64 / ONE as f64;
    assert!((x - 3.0).abs() <= 1e-5);
    assert_eq!(hits[0].y as f64 / ONE as f64, 0.5);
}

#[test]
fn translucent_cell_is_passed_and_recorded() {
    let mut b = Board::new(10, 10);
    b.set(3, 0, Cell::SolidColor(BLUE));
    b.set(2, 7, Cell::TranslucentTexture(texture(1)));
    b.set(4, 7, Cell::OpaqueTexture(texture(2)));
    b.set(6, 7, Cell::OpaqueTexture(texture(3)));
    let hits = cast_ray(p(HALF, 7 * ONE + HALF), p(ONE, 0), &b);
    assert_eq!(hits, vec![p(2 * ONE, 7 * ONE + HALF), p(4 * ONE, 7 * ONE + HALF)]);
}

#[test]
fn ray_toward_negative_x() {
    let mut b = Board::new(10, 10);
    b.set(2, 0, Cell::SolidColor(BLUE));
    let hits = cast_ray(p(5 * ONE + HALF, HALF), p(-ONE, 0), &b);
    assert_eq!(hits, vec![p(3 * ONE, HALF)]);
}

#[test]
fn diagonal_ray_crosses_corners() {
    let mut b = Board::new(10, 10);
    b.set(2, 2, Cell::SolidColor(BLUE));
    let hits = cast_ray(p(HALF, HALF), p(ONE, ONE), &b);
    assert_eq!(hits, vec![p(2 * ONE, 2 * ONE)]);
}

#[test]
fn steep_ray_hits_a_horizontal_line() {
    let mut b = Board::new(10, 10);
    b.set(0, 3, Cell::SolidColor(BLUE));
    b.set(1, 3, Cell::SolidColor(BLUE));
    // slope 4: from (0.5, 0.5) the line x = 1 is passed at y = 2.5, and the
    // line y = 3 is met at x = 0.5 + 2.5 / 4, in cell (1, 3)
    let hits = cast_ray(p(HALF, HALF), p(ONE / 4, ONE), &b);
    assert_eq!(hits, vec![p(HALF + 5 * ONE / 8, 3 * ONE)]);
}

#[test]
fn far_clip_hides_distant_cells() {
    let mut b = Board::new(20, 20);
    b.set(12, 0, Cell::SolidColor(BLUE));
    assert!(cast_ray(p(HALF, HALF), p(ONE, 0), &b).is_empty());
    b.set(10, 0, Cell::SolidColor(BLUE));
    assert_eq!(cast_ray(p(HALF, HALF), p(ONE, 0), &b), vec![p(10 * ONE, HALF)]);
}

#[test]
fn upright_ray_looks_at_one_cell_left_of_the_origin() {
    let mut b = Board::new(10, 10);
    // Straight down the y axis nothing is seen, however close.
    b.set(3, 3, Cell::SolidColor(BLUE));
    assert!(cast_ray(p(3 * ONE + HALF, 2 * ONE + HALF), p(0, ONE), &b).is_empty());
    // The ray is followed as the flat line through its origin toward
    // smaller x, and stops at the first vertical grid line.
    b.set(2, 2, Cell::SolidColor(BLUE));
    let hits = cast_ray(p(3 * ONE + HALF, 2 * ONE + HALF), p(0, ONE), &b);
    assert_eq!(hits, vec![p(3 * ONE, 2 * ONE + HALF)]);
    // Translucent cells do not make it go on.
    b.set(1, 2, Cell::SolidColor(BLUE));
    b.set(2, 2, Cell::TranslucentTexture(texture(1)));
    let hits = cast_ray(p(3 * ONE + HALF, 2 * ONE + HALF), p(0, -ONE), &b);
    assert_eq!(hits, vec![p(3 * ONE, 2 * ONE + HALF)]);
}

#[test]
fn fan_has_one_column_per_ray_each_with_the_sentinel() {
    let mut b = Board::new(10, 10);
    b.set(5, 5, Cell::SolidColor(BLUE));
    b.set(4, 4, Cell::TranslucentTexture(texture(4)));
    let player = Player::new(2 * ONE + HALF, 2 * ONE + HALF);
    let half = Rotation { cos: HALF_FOV_COS, sin: HALF_FOV_SIN };
    for n in [1usize, 2, 7, 430] {
        let cols = get_hitted_cells(&b, &player, half, n);
        assert_eq!(cols.len(), n);
        for c in &cols {
            assert!(!c.is_empty());
            assert_eq!(c[0], (Cell::Empty, p(0, 0)));
        }
    }
}

#[test]
fn fan_columns_resolve_their_cells() {
    let mut b = Board::new(10, 10);
    for y in 0..10 {
        b.set(9, y, Cell::SolidColor(BLUE));
    }
    let player = Player::new(4 * ONE + HALF, 4 * ONE + HALF);
    let half = Rotation { cos: HALF_FOV_COS, sin: HALF_FOV_SIN };
    let cols = get_hitted_cells(&b, &player, half, 4);
    // The leftmost ray points at (1, 1) / sqrt 2: it meets x = 9 at y = 9.
    assert_eq!(cols[0].len(), 2);
    assert_eq!(cols[0][1].0, Cell::SolidColor(BLUE));
    for c in &cols {
        assert_eq!(c.len(), 2);
        assert_eq!(c[1].0, Cell::SolidColor(BLUE));
        assert_eq!(c[1].1.x, 9 * ONE);
    }
}

#[test]
fn owning_cell_is_empty_outside_the_board() {
    let mut b = Board::new(2, 2);
    b.set(0, 0, Cell::SolidColor(BLUE));
    b.set(1, 1, Cell::SolidColor(BLUE));
    assert_eq!(owning_cell_of(&b, p(ONE, ONE), p(-1, HALF)), Cell::Empty);
    assert_eq!(owning_cell_of(&b, p(ONE, ONE), p(HALF, 2 * ONE)), Cell::Empty);
    assert_eq!(owning_cell_of(&b, p(ONE, ONE), p(ONE, ONE)), Cell::SolidColor(BLUE));
    assert_eq!(owning_cell_of(&b, p(-ONE, -ONE), p(ONE, ONE)), Cell::SolidColor(BLUE));
    assert_eq!(owning_cell_of(&b, p(-ONE, ONE), p(ONE, HALF)), Cell::SolidColor(BLUE));
    assert_eq!(owning_cell_of(&b, p(ONE, ONE), p(ONE, HALF)), Cell::Empty);
}

#[test]
fn height_shrinks_with_distance() {
    let h1 = column_height(430, 430, ONE as i128);
    let h2 = column_height(430, 430, 2 * ONE as i128);
    let h3 = column_height(430, 430, 2 * ONE as i128 + 1);
    assert_eq!(h1.num as f64 / h1.den as f64, 215.0);
    assert_eq!(h2.num as f64 / h2.den as f64, 107.5);
    assert!(h3.num * h2.den < h2.num * h3.den);
    assert!(h2.num * h1.den < h1.num * h2.den);
    assert!(h3.num > 0 && h3.den > 0);
    let top = column_top(430, h2);
    assert_eq!(top.num as f64 / top.den as f64, (430.0 - 107.5) / 2.0);
}

#[test]
fn perpendicular_distance_uses_the_view_axis() {
    let player = Player::new(HALF, HALF);
    assert_eq!(perpendicular_distance(&player, p(3 * ONE, 5 * ONE)), 5 * HALF as i128);
    assert_eq!(perpendicular_distance(&player, p(0, 0)), -(HALF as i128));
}

#[test]
fn texture_region_follows_the_wall_face() {
    let t = texture(9);
    let r = texture_region(p(2 * ONE + ONE / 4, 3 * ONE), t);
    assert_eq!((r.x, r.y, r.width, r.height), (16, 0, 1, 32));
    let r = texture_region(p(2 * ONE + ONE / 4, 3 * ONE + HALF), t);
    assert_eq!((r.x, r.y, r.width, r.height), (32, 8, 1, 32));
}

#[test]
fn column_is_projected_farthest_first() {
    let player = Player::new(HALF, 7 * ONE + HALF);
    let samples = vec![
        (Cell::Empty, p(0, 0)),
        (Cell::TranslucentTexture(texture(1)), p(2 * ONE, 7 * ONE + HALF)),
        (Cell::SolidColor(BLUE), p(4 * ONE, 7 * ONE + HALF)),
    ];
    let strips = project_column(&player, 430, 430, 5, &samples);
    assert_eq!(strips.len(), 2);
    assert_eq!(strips[0].paint, Paint::Flat(BLUE));
    assert_eq!(strips[0].dist, 7 * HALF as i128);
    assert_eq!(strips[1].dist, 3 * HALF as i128);
    assert_eq!(strips[1].column, 5);
    assert_eq!(strips[1].paint, Paint::Textured(texture(1), texture_region(samples[1].1, texture(1))));
}

#[test]
fn apply_zoom_is_apply_without_offset() {
    let t = Transform2D { offset: p(3 * ONE, -7 * ONE), zoom: p(17 * ONE + ONE / 5, 3 * ONE) };
    for v in [p(0, 0), p(ONE, 2 * ONE), p(-123456, 98765), p(7, -7)] {
        let a = v.apply(&t);
        let z = v.apply_zoom(&t);
        assert_eq!(z, p(a.x - t.offset.x, a.y - t.offset.y));
    }
    let r = Rect { x: ONE, y: 2 * ONE, width: ONE, height: HALF };
    let a = r.apply(&t);
    let z = r.apply_zoom(&t);
    assert_eq!((z.x, z.y, z.width, z.height), (a.x - 3 * ONE, a.y + 7 * ONE, a.width, a.height));
    assert_eq!(p(ONE, ONE).apply(&Transform2D::default()), p(ONE, ONE));
    assert_eq!(p(2 * ONE, 0).apply(&t), p(2 * (17 * ONE + ONE / 5) + 3 * ONE, -7 * ONE));
}

#[test]
fn minimap_takes_a_fifth_of_the_window() {
    let window = p(860 * ONE, 860 * ONE);
    assert_eq!(calculate_minimap_size(window, 10, 10), p(172 * ONE, 172 * ONE));
    assert_eq!(calculate_minimap_size(window, 20, 10), p(172 * ONE, 86 * ONE));
    assert_eq!(calculate_minimap_size(window, 10, 20), p(86 * ONE, 172 * ONE));
    let size = calculate_minimap_size(window, 10, 10);
    let t = Transform2D::minimap(window, size, 10, 10, 10 * ONE);
    assert_eq!(t.zoom, p(17 * ONE + ONE / 5, 17 * ONE + ONE / 5));
    assert_eq!(t.offset, p(678 * ONE, 678 * ONE));
    let b = Board::new(10, 10);
    assert_eq!(t.cell_under(&b, p(678 * ONE + 1, 678 * ONE + 1)), Some((0, 0)));
    assert_eq!(t.cell_under(&b, p(700 * ONE, 800 * ONE)), Some((1, 7)));
    assert_eq!(t.cell_under(&b, p(677 * ONE, 700 * ONE)), None);
    assert_eq!(t.cell_under(&b, p(851 * ONE, 700 * ONE)), None);
}

#[test]
fn player_moves_and_turns() {
    let mut pl = Player::new(HALF, HALF);
    pl.move_forward(HALF);
    assert_eq!(pl.pos, p(ONE, HALF));
    pl.move_backward(ONE / 4);
    assert_eq!(pl.pos, p(ONE - ONE / 4, HALF));
    assert_eq!(pl.turn_angle(ONE), 102944);
    assert_eq!(pl.turn_angle(HALF), 51472);
    pl.turn_right(Rotation { cos: 0, sin: ONE });
    assert_eq!(pl.dir, p(0, ONE));
    pl.turn_left(Rotation { cos: 0, sin: ONE });
    assert_eq!(pl.dir, p(ONE, 0));
    let controls = Controls { forward: true, backward: false, turn_left: true, turn_right: false };
    pl.update(controls, ONE, Rotation { cos: 0, sin: ONE });
    assert_eq!(pl.pos, p(ONE - ONE / 4 + ONE, HALF));
    assert_eq!(pl.dir, p(0, -ONE));
}

#[test]
fn fallible_access_reports_out_of_bounds() {
    let mut b = Board::new(2, 3);
    assert_eq!(b.get(2, 1), Ok(Cell::Empty));
    assert_eq!(b.get(3, 1), Err(BoardError::OutOfBounds));
    assert_eq!(b.get(0, 2), Err(BoardError::OutOfBounds));
    assert_eq!(b.try_set(2, 1, Cell::SolidColor(BLUE)), Ok(()));
    assert_eq!(b.get(2, 1), Ok(Cell::SolidColor(BLUE)));
    assert_eq!(b.try_set(1, 2, Cell::SolidColor(BLUE)), Err(BoardError::OutOfBounds));
    for y in 0..2 {
        for x in 0..3 {
            let expected = if (x, y) == (2, 1) { Cell::SolidColor(BLUE) } else { Cell::Empty };
            assert_eq!(b.at(x, y), expected);
        }
    }
}

#[test]
fn minimap_click_targets_the_cell_centre() {
    let window = p(860 * ONE, 860 * ONE);
    let size = calculate_minimap_size(window, 10, 10);
    let t = Transform2D::minimap(window, size, 10, 10, 10 * ONE);
    let b = Board::new(10, 10);
    assert_eq!(t.click_target(&b, p(700 * ONE, 800 * ONE)), Some(p(ONE + HALF, 7 * ONE + HALF)));
    assert_eq!(t.click_target(&b, p(10 * ONE, 10 * ONE)), None);
}

#[test]
fn wall_touching_the_player_still_draws() {
    let mut b = Board::new(10, 10);
    b.set(2, 2, Cell::SolidColor(BLUE));
    let player = Player::new(2 * ONE, 2 * ONE + HALF);
    let half = Rotation { cos: HALF_FOV_COS, sin: HALF_FOV_SIN };
    let cols = get_hitted_cells(&b, &player, half, 8);
    for (x, c) in cols.iter().enumerate() {
        assert_eq!(c.len(), 2);
        assert_eq!(c[1], (Cell::SolidColor(BLUE), p(2 * ONE, 2 * ONE + HALF)));
        let strips = project_column(&player, 430, 430, x, c);
        assert_eq!(strips.len(), 1);
        assert_eq!(strips[0].dist, 1);
        assert_eq!(strips[0].paint, Paint::Flat(BLUE));
        assert_eq!(strips[0].height, column_height(430, 430, 1));
    }
}

#[test]
fn hit_behind_the_view_plane_gets_the_nearest_strip() {
    let player = Player::new(2 * ONE, 2 * ONE);
    let samples = vec![(Cell::Empty, p(0, 0)), (Cell::OpaqueTexture(texture(3)), p(ONE, 2 * ONE))];
    let strips = project_column(&player, 430, 430, 0, &samples);
    assert_eq!(strips.len(), 1);
    assert_eq!(strips[0].dist, 1);
}

#[test]
fn view_shows_the_fan_right_to_left() {
    let player = Player::new(HALF, HALF);
    let far = (Cell::SolidColor(BLUE), p(4 * ONE, HALF));
    let near = (Cell::SolidColor(BLUE), p(2 * ONE, HALF));
    let columns = vec![
        vec![(Cell::Empty, p(0, 0)), far],
        vec![(Cell::Empty, p(0, 0))],
        vec![(Cell::Empty, p(0, 0)), near],
    ];
    let view = project_view(&player, 430, 430, &columns);
    assert_eq!(view.len(), 3);
    assert_eq!(view[0].len(), 1);
    assert_eq!((view[0][0].column, view[0][0].dist), (0, 3 * HALF as i128));
    assert!(view[1].is_empty());
    assert_eq!((view[2][0].column, view[2][0].dist), (2, 7 * HALF as i128));
}

#[test]
fn turning_back_restores_the_direction() {
    let turn = Rotation { cos: 56756, sin: 32768 };
    let mut pl = Player::new(HALF, HALF);
    pl.turn_right(turn);
    assert_eq!(pl.dir, p(56756, 32768));
    pl.turn_left(turn);
    assert!((pl.dir.x - ONE).abs() <= 5 && pl.dir.y.abs() <= 5);
    for _ in 0..12 {
        pl.turn_right(turn);
    }
    let len2 = pl.dir.x as i128 * pl.dir.x as i128 + pl.dir.y as i128 * pl.dir.y as i128;
    let one2 = ONE as i128 * ONE as i128;
    assert!((len2 - one2).abs() * 100 <= one2);
}

#[test]
fn long_frames_move_proportionally() {
    let mut pl = Player::new(HALF, HALF);
    pl.move_forward(3 * ONE);
    assert_eq!(pl.pos, p(3 * ONE + HALF, HALF));
    assert_eq!(pl.turn_angle(4 * ONE), 4 * 102944);
}

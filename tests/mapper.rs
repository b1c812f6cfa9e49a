use life_grid::grid::CellIndex;
use life_grid::layout::{create_grid, grid_points, GridLine};
use life_grid::spatial::{closest_n_points, coordinate_to_index, snap_to_grid, Point};

fn pt(x: i32, y: i32) -> Point {
    Point { x, y }
}

fn d2(a: Point, b: Point) -> i64 {
    let dx = (a.x - b.x) as i64;
    let dy = (a.y - b.y) as i64;
    dx * dx + dy * dy
}

#[test]
fn closest_points_in_order_of_distance() {
    let points = vec![pt(10, 0), pt(0, 0), pt(3, 4), pt(-1, 0), pt(0, 7)];
    let r = closest_n_points(pt(0, 0), &points, 3);
    assert_eq!(r, vec![pt(0, 0), pt(-1, 0), pt(3, 4)]);
}

#[test]
fn closest_points_ties_keep_input_order() {
    let points = vec![pt(0, 2), pt(2, 0), pt(5, 5), pt(0, -2), pt(-2, 0)];
    let r = closest_n_points(pt(0, 0), &points, 4);
    assert_eq!(r, vec![pt(0, 2), pt(2, 0), pt(0, -2), pt(-2, 0)]);
}

#[test]
fn closest_points_zero_and_all() {
    let points = vec![pt(4, 4), pt(1, 1), pt(2, 2)];
    assert!(closest_n_points(pt(0, 0), &points, 0).is_empty());
    assert_eq!(closest_n_points(pt(0, 0), &points, 3), vec![pt(1, 1), pt(2, 2), pt(4, 4)]);
}

#[test]
fn closest_points_count_and_order_on_a_lattice() {
    let points = grid_points(16, 16, 8);
    let p = pt(5, -3);
    for n in [0usize, 1, 4, 9, points.len()] {
        let r = closest_n_points(p, &points, n);
        assert_eq!(r.len(), n);
        for w in r.windows(2) {
            assert!(d2(p, w[0]) <= d2(p, w[1]));
        }
    }
}

#[test]
fn closest_points_extreme_coordinates() {
    let points = vec![pt(i32::MAX, i32::MAX), pt(i32::MIN, i32::MIN), pt(0, 0)];
    let r = closest_n_points(pt(i32::MIN, i32::MIN), &points, 3);
    assert_eq!(r, vec![pt(i32::MIN, i32::MIN), pt(0, 0), pt(i32::MAX, i32::MAX)]);
}

#[test]
fn snap_picks_lower_left_corner() {
    let points = grid_points(32, 32, 8);
    assert_eq!(snap_to_grid(pt(3, 5), &points), pt(0, 0));
    assert_eq!(snap_to_grid(pt(-3, 5), &points), pt(-8, 0));
    assert_eq!(snap_to_grid(pt(11, -2), &points), pt(8, -8));
}

#[test]
fn snap_near_lattice_edge_reaches_past_cell() {
    // The lattice ends at x = 8; (8, 8) is nearer than (0, -8).
    let points = grid_points(16, 16, 8);
    assert_eq!(snap_to_grid(pt(11, -2), &points), pt(0, -8));
}

#[test]
fn grid_points_cover_double_area() {
    let points = grid_points(8, 4, 4);
    assert_eq!(
        points,
        vec![
            pt(-8, -4), pt(-4, -4), pt(0, -4), pt(4, -4),
            pt(-8, 0), pt(-4, 0), pt(0, 0), pt(4, 0),
        ]
    );
}

#[test]
fn grid_points_with_uneven_step() {
    let points = grid_points(5, 1, 3);
    assert_eq!(points, vec![pt(-5, -1), pt(-2, -1), pt(1, -1), pt(4, -1)]);
    assert!(grid_points(0, 5, 2).is_empty());
}

#[test]
fn grid_lines_horizontal_then_vertical() {
    let lines = create_grid(16, 8, 8);
    let h = |y| GridLine { start_x: -8, start_y: y, end_x: 8, end_y: y };
    let v = |x| GridLine { start_x: x, start_y: -4, end_x: x, end_y: 4 };
    assert_eq!(lines, vec![h(-4), v(-8), v(0)]);
}

#[test]
fn index_of_corners() {
    // 64 by 64 pixels, 8 by 8 cells of 8 pixels.
    assert_eq!(coordinate_to_index(pt(-32, 24), 64, 64, 8, 8), Some(CellIndex { x: 0, y: 0 }));
    assert_eq!(coordinate_to_index(pt(-32, -32), 64, 64, 8, 8), Some(CellIndex { x: 0, y: 7 }));
    assert_eq!(coordinate_to_index(pt(24, -32), 64, 64, 8, 8), Some(CellIndex { x: 7, y: 7 }));
    assert_eq!(coordinate_to_index(pt(0, 0), 64, 64, 8, 8), Some(CellIndex { x: 4, y: 3 }));
}

#[test]
fn index_rejects_outside_area() {
    assert_eq!(coordinate_to_index(pt(33, 0), 64, 64, 8, 8), None);
    assert_eq!(coordinate_to_index(pt(-33, 0), 64, 64, 8, 8), None);
    assert_eq!(coordinate_to_index(pt(0, 33), 64, 64, 8, 8), None);
    assert_eq!(coordinate_to_index(pt(0, -33), 64, 64, 8, 8), None);
}

#[test]
fn index_in_range_inside_area() {
    for x in -32..=32 {
        for y in -32..=32 {
            let c = coordinate_to_index(pt(x, y), 64, 64, 8, 8).unwrap();
            assert!(c.x < 8 && c.y < 8);
        }
    }
}

#[test]
fn index_of_right_border_is_last_row() {
    assert_eq!(coordinate_to_index(pt(32, 0), 64, 64, 8, 8), Some(CellIndex { x: 7, y: 3 }));
    assert_eq!(coordinate_to_index(pt(32, -32), 64, 64, 8, 8), Some(CellIndex { x: 7, y: 7 }));
}

#[test]
fn index_on_single_cell_grid() {
    assert_eq!(coordinate_to_index(pt(-4, -4), 8, 8, 1, 1), Some(CellIndex { x: 0, y: 0 }));
    assert_eq!(coordinate_to_index(pt(4, 4), 8, 8, 1, 1), Some(CellIndex { x: 0, y: 0 }));
}

#[test]
fn index_with_odd_width() {
    // Half of 5 is 2.5: 2 is inside, 3 is not.
    assert_eq!(coordinate_to_index(pt(2, 0), 5, 4, 5, 4), Some(CellIndex { x: 4, y: 1 }));
    assert_eq!(coordinate_to_index(pt(3, 0), 5, 4, 5, 4), None);
}

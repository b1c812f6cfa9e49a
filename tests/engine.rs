use life_grid::grid::{cells_from_draws, get_all_cells_as_dead, init_cells, CellIndex, Cells};
use life_grid::life::{game_of_life, get_neighbours_indices};

fn grid_with(nx: usize, ny: usize, live: &[(usize, usize)]) -> Cells {
    let mut cells = get_all_cells_as_dead(nx, ny);
    for &(x, y) in live {
        cells.set(x, y, true);
    }
    cells
}

fn live_cells(cells: &Cells) -> Vec<(usize, usize)> {
    let mut out = Vec::new();
    for x in 0..cells.num_cells_x {
        for y in 0..cells.num_cells_y {
            if cells.get(x, y) {
                out.push((x, y));
            }
        }
    }
    out
}

fn pairs(v: &[CellIndex]) -> Vec<(usize, usize)> {
    v.iter().map(|c| (c.x, c.y)).collect()
}

#[test]
fn dead_grid_has_requested_size() {
    let cells = get_all_cells_as_dead(4, 7);
    assert_eq!(cells.num_cells_x, 4);
    assert_eq!(cells.num_cells_y, 7);
    assert_eq!(cells.rows.len(), 4);
    assert!(cells.rows.iter().all(|r| r.values.len() == 7));
    assert!(live_cells(&cells).is_empty());
}

#[test]
fn empty_grid_has_no_rows() {
    let cells = get_all_cells_as_dead(0, 0);
    assert_eq!(cells.rows.len(), 0);
    let next = game_of_life(&cells);
    assert_eq!(next.rows.len(), 0);
}

#[test]
fn set_changes_one_cell() {
    let mut cells = get_all_cells_as_dead(3, 3);
    cells.set(2, 1, true);
    assert!(cells.get(2, 1));
    assert_eq!(live_cells(&cells), vec![(2, 1)]);
    cells.set(2, 1, false);
    assert!(live_cells(&cells).is_empty());
}

#[test]
fn unseeded_grid_is_dead() {
    let cells = init_cells(10, 12, false);
    assert_eq!(cells.num_cells_x, 10);
    assert_eq!(cells.num_cells_y, 12);
    assert!(live_cells(&cells).is_empty());
}

#[test]
fn seeded_grid_holds_live_and_dead_cells() {
    let cells = init_cells(64, 64, true);
    assert_eq!(cells.rows.len(), 64);
    let live = live_cells(&cells).len();
    assert!(live > 0);
    assert!(live < 64 * 64);
}

#[test]
fn draws_are_laid_out_row_after_row() {
    let draws = vec![true, false, false, false, true, true];
    let cells = cells_from_draws(2, 3, &draws);
    assert_eq!(cells.num_cells_x, 2);
    assert_eq!(cells.num_cells_y, 3);
    assert_eq!(live_cells(&cells), vec![(0, 0), (1, 1), (1, 2)]);
}

#[test]
fn no_draws_for_empty_grid() {
    let cells = cells_from_draws(3, 0, &Vec::new());
    assert_eq!(cells.rows.len(), 3);
    assert!(cells.rows.iter().all(|r| r.values.is_empty()));
}

#[test]
fn neighbours_of_interior_cell() {
    let cells = get_all_cells_as_dead(5, 5);
    let n = get_neighbours_indices(2, 2, &cells);
    assert_eq!(
        pairs(&n),
        vec![(1, 1), (2, 1), (3, 1), (1, 3), (2, 3), (3, 3), (1, 2), (3, 2)]
    );
}

#[test]
fn neighbours_of_corner_cells_are_clipped() {
    let cells = get_all_cells_as_dead(4, 3);
    assert_eq!(pairs(&get_neighbours_indices(0, 0, &cells)), vec![(0, 1), (1, 1), (1, 0)]);
    assert_eq!(pairs(&get_neighbours_indices(3, 2, &cells)), vec![(2, 1), (3, 1), (2, 2)]);
}

#[test]
fn neighbours_of_edge_cell() {
    let cells = get_all_cells_as_dead(4, 4);
    assert_eq!(
        pairs(&get_neighbours_indices(0, 2, &cells)),
        vec![(0, 1), (1, 1), (0, 3), (1, 3), (1, 2)]
    );
}

#[test]
fn neighbours_on_single_cell_grid() {
    let cells = get_all_cells_as_dead(1, 1);
    assert!(get_neighbours_indices(0, 0, &cells).is_empty());
}

#[test]
fn dead_grid_stays_dead() {
    let cells = get_all_cells_as_dead(6, 9);
    let next = game_of_life(&cells);
    assert_eq!(next.num_cells_x, 6);
    assert_eq!(next.num_cells_y, 9);
    assert!(live_cells(&next).is_empty());
    assert!(live_cells(&game_of_life(&next)).is_empty());
}

#[test]
fn lone_cell_dies() {
    let cells = grid_with(5, 5, &[(2, 2)]);
    assert!(live_cells(&game_of_life(&cells)).is_empty());
}

#[test]
fn lone_corner_cell_dies() {
    let cells = grid_with(3, 3, &[(0, 0)]);
    assert!(live_cells(&game_of_life(&cells)).is_empty());
}

#[test]
fn block_is_still_life() {
    let block = [(1, 1), (1, 2), (2, 1), (2, 2)];
    let cells = grid_with(6, 6, &block);
    let next = game_of_life(&cells);
    assert_eq!(live_cells(&next), block.to_vec());
}

#[test]
fn block_in_corner_is_still_life() {
    let block = [(0, 0), (0, 1), (1, 0), (1, 1)];
    let cells = grid_with(2, 2, &block);
    assert_eq!(live_cells(&game_of_life(&cells)), block.to_vec());
}

#[test]
fn blinker_oscillates_with_period_two() {
    let row = [(1, 0), (1, 1), (1, 2)];
    let cells = grid_with(5, 5, &row);
    let once = game_of_life(&cells);
    assert_eq!(live_cells(&once), vec![(0, 1), (1, 1), (2, 1)]);
    let twice = game_of_life(&once);
    assert_eq!(live_cells(&twice), row.to_vec());
}

#[test]
fn birth_needs_exactly_three_neighbours() {
    // (1, 1) has three live neighbours and comes alive; each corner cell has
    // one live neighbour and dies.
    let cells = grid_with(3, 3, &[(0, 0), (0, 2), (2, 0)]);
    assert_eq!(live_cells(&game_of_life(&cells)), vec![(1, 1)]);
}

#[test]
fn crowded_cell_dies() {
    // The centre has four live neighbours.
    let cells = grid_with(3, 3, &[(0, 1), (1, 0), (1, 1), (1, 2), (2, 1)]);
    let next = game_of_life(&cells);
    assert!(!next.get(1, 1));
    assert_eq!(
        live_cells(&next),
        vec![(0, 0), (0, 1), (0, 2), (1, 0), (1, 2), (2, 0), (2, 1), (2, 2)]
    );
}

#[test]
fn advance_leaves_input_untouched_and_repeats() {
    let cells = grid_with(7, 4, &[(1, 0), (1, 1), (1, 2), (5, 3), (6, 3), (6, 2)]);
    let before = live_cells(&cells);
    let a = game_of_life(&cells);
    let b = game_of_life(&cells);
    assert_eq!(live_cells(&cells), before);
    assert_eq!(live_cells(&a), live_cells(&b));
}

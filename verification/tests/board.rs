use game_of_life::cell_grid::{CellGrid, OutOfBoundsError};

fn board(dim: usize, alive: &[(usize, usize)]) -> CellGrid {
    let mut grid = CellGrid::new(dim);
    for &(x, y) in alive {
        grid.toggle(x, y).unwrap();
    }
    grid
}

#[test]
fn fresh_board_is_dead_for_every_size() {
    for dim in 0..12 {
        let grid = CellGrid::new(dim);
        assert_eq!(grid.get_dim(), dim);
        assert_eq!(grid.get_states(), vec![false; dim * dim]);
        assert_eq!(grid.get_alive_cells(), vec![]);
    }
}

#[test]
fn empty_board_has_no_cells() {
    let mut grid = CellGrid::new(0);
    assert_eq!(grid.get_dim(), 0);
    assert_eq!(grid.get_states(), Vec::<bool>::new());
    grid.update();
    assert_eq!(grid.get_states(), Vec::<bool>::new());
    assert_eq!(
        grid.toggle(0, 0),
        Err(OutOfBoundsError {
            size: 0,
            x: 0,
            y: 0
        })
    );
}

#[test]
fn toggle_changes_one_cell_only() {
    let mut grid = board(4, &[(0, 0), (3, 1), (2, 2)]);
    let before = grid.get_states();
    assert_eq!(grid.toggle(1, 2), Ok(()));
    let after = grid.get_states();
    for i in 0..16 {
        if i == 1 + 4 * 2 {
            assert_eq!(after[i], !before[i]);
        } else {
            assert_eq!(after[i], before[i]);
        }
    }
}

#[test]
fn toggle_twice_restores_the_board() {
    for x in 0..4 {
        for y in 0..4 {
            let mut grid = board(4, &[(0, 0), (3, 1), (2, 2)]);
            let before = grid.get_states();
            grid.toggle(x, y).unwrap();
            assert_ne!(grid.get_states(), before);
            grid.toggle(x, y).unwrap();
            assert_eq!(grid.get_states(), before);
            assert_eq!(grid, board(4, &[(0, 0), (3, 1), (2, 2)]));
        }
    }
}

#[test]
fn toggle_stores_columns_within_rows() {
    let grid = board(3, &[(2, 0)]);
    assert_eq!(
        grid.get_states(),
        vec![false, false, true, false, false, false, false, false, false]
    );
    let grid = board(3, &[(0, 2)]);
    assert_eq!(
        grid.get_states(),
        vec![false, false, false, false, false, false, true, false, false]
    );
}

#[test]
fn toggle_out_of_bounds_leaves_the_board() {
    let mut grid = board(3, &[(0, 0), (1, 1), (2, 2)]);
    let before = grid.get_states();
    for &(x, y) in &[(3, 0), (0, 3), (3, 3), (7, 1), (1, 9), (usize::MAX, usize::MAX)] {
        assert_eq!(grid.toggle(x, y), Err(OutOfBoundsError { size: 3, x, y }));
        assert_eq!(grid.get_states(), before);
        assert_eq!(grid.get_dim(), 3);
    }
}

#[test]
fn single_cell_is_counted_once_by_each_neighbor() {
    let dim = 5;
    for cx in 0..dim {
        for cy in 0..dim {
            let grid = board(dim, &[(cx, cy)]);
            for x in 0..dim {
                for y in 0..dim {
                    let touches = (x, y) != (cx, cy)
                        && x + 1 >= cx
                        && x <= cx + 1
                        && y + 1 >= cy
                        && y <= cy + 1;
                    let expected = if touches { 1 } else { 0 };
                    assert_eq!(grid.get_alive_neighbors(x + dim * y), expected);
                }
            }
        }
    }
}

#[test]
fn interior_cell_alone_has_eight_neighbors_that_see_it() {
    let grid = board(4, &[(1, 2)]);
    let counts: Vec<u8> = (0..16).map(|i| grid.get_alive_neighbors(i)).collect();
    assert_eq!(
        counts,
        vec![0, 0, 0, 0, 1, 1, 1, 0, 1, 0, 1, 0, 1, 1, 1, 0]
    );
}

#[test]
fn full_board_counts_three_five_and_eight() {
    let all: Vec<(usize, usize)> = (0..9).map(|i| (i % 3, i / 3)).collect();
    let grid = board(3, &all);
    let counts: Vec<u8> = (0..9).map(|i| grid.get_alive_neighbors(i)).collect();
    assert_eq!(counts, vec![3, 5, 3, 5, 8, 5, 3, 5, 3]);
}

#[test]
fn corner_counts_at_most_three() {
    for dim in 2..7 {
        let all: Vec<(usize, usize)> = (0..dim * dim).map(|i| (i % dim, i / dim)).collect();
        let grid = board(dim, &all);
        assert_eq!(grid.get_alive_neighbors(0), 3);
        assert_eq!(grid.get_alive_neighbors(dim - 1), 3);
        assert_eq!(grid.get_alive_neighbors(dim * (dim - 1)), 3);
        assert_eq!(grid.get_alive_neighbors(dim * dim - 1), 3);
    }
}

#[test]
fn corner_counts_each_of_its_three_neighbors() {
    assert_eq!(board(3, &[(1, 0)]).get_alive_neighbors(0), 1);
    assert_eq!(board(3, &[(0, 1)]).get_alive_neighbors(0), 1);
    assert_eq!(board(3, &[(1, 1)]).get_alive_neighbors(0), 1);
    assert_eq!(board(3, &[(0, 0)]).get_alive_neighbors(0), 0);
    assert_eq!(board(3, &[(2, 0), (2, 1), (2, 2), (0, 2), (1, 2)]).get_alive_neighbors(0), 0);
}

#[test]
fn single_cell_board_has_no_neighbors() {
    let mut grid = board(1, &[(0, 0)]);
    assert_eq!(grid.get_alive_neighbors(0), 0);
    grid.update();
    assert_eq!(grid.get_states(), vec![false]);
}

#[test]
fn edges_do_not_wrap_around() {
    // The last cell of a row is stored just before the first of the next.
    let grid = board(3, &[(2, 0)]);
    assert_eq!(grid.get_alive_neighbors(3), 0);
    let grid = board(3, &[(0, 1)]);
    assert_eq!(grid.get_alive_neighbors(2), 0);
    // The first and the last row, the first and the last column.
    let grid = board(3, &[(1, 0)]);
    assert_eq!(grid.get_alive_neighbors(7), 0);
    let grid = board(3, &[(0, 1)]);
    assert_eq!(grid.get_alive_neighbors(5), 0);
}

#[test]
fn dead_board_stays_dead() {
    for dim in 0..9 {
        let mut grid = CellGrid::new(dim);
        grid.update();
        assert_eq!(grid.get_states(), vec![false; dim * dim]);
        assert_eq!(grid, CellGrid::new(dim));
    }
}

#[test]
fn update_counts_before_any_cell_changes() {
    // A row of three turns into a column of three, and back.
    let mut grid = board(5, &[(1, 2), (2, 2), (3, 2)]);
    grid.update();
    assert_eq!(grid, board(5, &[(2, 1), (2, 2), (2, 3)]));
    grid.update();
    assert_eq!(grid, board(5, &[(1, 2), (2, 2), (3, 2)]));
}

#[test]
fn block_is_stable() {
    let mut grid = board(4, &[(1, 1), (2, 1), (1, 2), (2, 2)]);
    grid.update();
    assert_eq!(grid, board(4, &[(1, 1), (2, 1), (1, 2), (2, 2)]));
}

#[test]
fn crowded_cells_die_and_lonely_cells_die() {
    let all: Vec<(usize, usize)> = (0..9).map(|i| (i % 3, i / 3)).collect();
    let mut grid = board(3, &all);
    grid.update();
    assert_eq!(grid, board(3, &[(0, 0), (2, 0), (0, 2), (2, 2)]));
    grid.update();
    assert_eq!(grid, CellGrid::new(3));
}

#[test]
fn update_keeps_the_dimension() {
    let mut grid = board(6, &[(1, 1), (2, 1), (3, 1)]);
    grid.update();
    assert_eq!(grid.get_dim(), 6);
    assert_eq!(grid.get_states().len(), 36);
}

#[test]
fn alive_cells_come_in_stored_order() {
    let grid = board(3, &[(0, 2), (2, 1), (1, 1), (2, 0), (0, 0)]);
    assert_eq!(
        grid.get_alive_cells(),
        vec![(0, 0), (2, 0), (1, 1), (2, 1), (0, 2)]
    );
}

#[test]
fn alive_cells_after_one_generation() {
    let mut grid = board(4, &[(0, 0), (2, 0), (1, 1), (2, 1), (0, 2), (2, 3)]);
    grid.update();
    assert_eq!(grid.get_alive_cells(), vec![(2, 0), (0, 1), (2, 1), (2, 2)]);
}

#[test]
fn alive_cells_agree_with_states() {
    let grid = board(5, &[(4, 4), (0, 0), (3, 1), (1, 3), (2, 2)]);
    let states = grid.get_states();
    let alive = grid.get_alive_cells();
    assert_eq!(alive.len(), 5);
    for i in 0..25 {
        assert_eq!(states[i], alive.contains(&(i % 5, i / 5)));
    }
}

#[test]
fn places_and_coordinates_agree() {
    for x in 0..8 {
        for y in 0..8 {
            let mut grid = CellGrid::new(8);
            grid.toggle(x, y).unwrap();
            let states = grid.get_states();
            for i in 0..64 {
                assert_eq!(states[i], i == x + 8 * y);
            }
            assert_eq!(grid.get_alive_cells(), vec![(x, y)]);
        }
    }
}

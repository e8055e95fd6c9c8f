use game_of_life::game::cell_at_pixel;
use game_of_life::{MainGame, OutOfRange, CELLS_HEIGHT, CELLS_WIDTH};

fn alive_cells(g: &MainGame) -> Vec<(usize, usize)> {
    let mut out = Vec::new();
    for r in 0..CELLS_HEIGHT {
        for c in 0..CELLS_WIDTH {
            if g.board[r][c] {
                out.push((r, c));
            }
        }
    }
    out
}

fn game_with(cells: &[(usize, usize)]) -> MainGame {
    let mut g = MainGame::new();
    for &(r, c) in cells {
        g.set_cell(r, c, true).unwrap();
    }
    g
}

#[test]
fn new_game_is_empty_and_stopped() {
    let g = MainGame::new();
    assert_eq!(g.cycle, 0);
    assert!(!g.started);
    assert!(alive_cells(&g).is_empty());
}

#[test]
fn neighbors_never_count_the_cell_itself() {
    let mut full = MainGame::new();
    for r in 0..CELLS_HEIGHT {
        for c in 0..CELLS_WIDTH {
            full.board[r][c] = true;
        }
    }
    assert_eq!(full.get_neighbors((10, 10)), 8);
    full.board[10][10] = false;
    assert_eq!(full.get_neighbors((10, 10)), 8);
    for r in 0..CELLS_HEIGHT {
        for c in 0..CELLS_WIDTH {
            assert!(full.get_neighbors((r, c)) <= 8);
        }
    }
}

#[test]
fn candidate_neighbors_at_corners_edges_and_interior() {
    let mut full = MainGame::new();
    for r in 0..CELLS_HEIGHT {
        for c in 0..CELLS_WIDTH {
            full.board[r][c] = true;
        }
    }
    let last_r = CELLS_HEIGHT - 1;
    let last_c = CELLS_WIDTH - 1;
    assert_eq!(full.get_neighbors((0, 0)), 3);
    assert_eq!(full.get_neighbors((0, last_c)), 3);
    assert_eq!(full.get_neighbors((last_r, 0)), 3);
    assert_eq!(full.get_neighbors((last_r, last_c)), 3);
    assert_eq!(full.get_neighbors((0, 5)), 5);
    assert_eq!(full.get_neighbors((5, 0)), 5);
    assert_eq!(full.get_neighbors((last_r, 5)), 5);
    assert_eq!(full.get_neighbors((5, last_c)), 5);
    assert_eq!(full.get_neighbors((5, 5)), 8);
}

#[test]
fn neighbors_in_a_partial_pattern() {
    let g = game_with(&[(0, 0), (0, 1), (1, 1), (2, 2)]);
    assert_eq!(g.get_neighbors((0, 0)), 2);
    assert_eq!(g.get_neighbors((1, 0)), 3);
    assert_eq!(g.get_neighbors((1, 2)), 3);
    assert_eq!(g.get_neighbors((2, 2)), 1);
    assert_eq!(g.get_neighbors((4, 4)), 0);
}

#[test]
fn empty_grid_stays_empty() {
    let mut g = MainGame::new();
    g.advance_step();
    assert!(alive_cells(&g).is_empty());
    assert_eq!(g.cycle, 1);
}

#[test]
fn isolated_cell_dies() {
    let mut g = game_with(&[(7, 7)]);
    g.advance_step();
    assert!(alive_cells(&g).is_empty());
}

#[test]
fn block_is_still() {
    let cells = [(3, 3), (3, 4), (4, 3), (4, 4)];
    let mut g = game_with(&cells);
    g.advance_step();
    assert_eq!(alive_cells(&g), cells.to_vec());
    g.advance_step();
    assert_eq!(alive_cells(&g), cells.to_vec());
}

#[test]
fn block_in_a_corner_is_still() {
    let cells = [(0, 0), (0, 1), (1, 0), (1, 1)];
    let mut g = game_with(&cells);
    g.advance_step();
    assert_eq!(alive_cells(&g), cells.to_vec());
}

#[test]
fn blinker_has_period_two() {
    let horizontal = vec![(2, 1), (2, 2), (2, 3)];
    let mut g = game_with(&horizontal);
    g.advance_step();
    assert_eq!(alive_cells(&g), vec![(1, 2), (2, 2), (3, 2)]);
    g.advance_step();
    assert_eq!(alive_cells(&g), horizontal);
    assert_eq!(g.cycle, 2);
}

#[test]
fn blinker_on_the_top_edge_does_not_wrap() {
    let mut g = game_with(&[(0, 1), (0, 2), (0, 3)]);
    g.advance_step();
    assert_eq!(alive_cells(&g), vec![(0, 2), (1, 2)]);
    g.advance_step();
    assert!(alive_cells(&g).is_empty());
}

#[test]
fn glider_moves_one_cell_diagonally_in_four_steps() {
    let mut g = game_with(&[(0, 1), (1, 2), (2, 0), (2, 1), (2, 2)]);
    for _ in 0..4 {
        g.advance_step();
    }
    assert_eq!(alive_cells(&g), vec![(1, 2), (2, 3), (3, 1), (3, 2), (3, 3)]);
}

#[test]
fn generation_counts_steps_only() {
    let mut g = MainGame::new();
    g.advance_step();
    g.advance_step();
    assert_eq!(g.cycle, 2);
    g.toggle_cell(1, 1).unwrap();
    g.toggle_running();
    g.draw_pixel(3, 4);
    assert_eq!(g.cycle, 2);
    g.advance_step();
    assert_eq!(g.cycle, 3);
}

#[test]
fn generation_saturates() {
    let mut g = MainGame::new();
    g.cycle = usize::MAX;
    g.advance_step();
    assert_eq!(g.cycle, usize::MAX);
}

#[test]
fn toggle_twice_restores_the_cell() {
    let mut g = game_with(&[(5, 6)]);
    g.toggle_cell(5, 6).unwrap();
    assert!(!g.board[5][6]);
    g.toggle_cell(5, 6).unwrap();
    assert!(g.board[5][6]);
    g.toggle_cell(0, 0).unwrap();
    assert!(g.board[0][0]);
    g.toggle_cell(0, 0).unwrap();
    assert!(!g.board[0][0]);
}

#[test]
fn draw_pixel_flips_column_x_of_row_y() {
    let mut g = MainGame::new();
    g.draw_pixel(7, 2);
    assert!(g.board[2][7]);
    assert_eq!(alive_cells(&g), vec![(2, 7)]);
    g.draw_pixel(7, 2);
    assert!(alive_cells(&g).is_empty());
}

#[test]
fn out_of_range_edits_are_reported() {
    let mut g = MainGame::new();
    assert_eq!(
        g.toggle_cell(CELLS_HEIGHT, 0),
        Err(OutOfRange { row: CELLS_HEIGHT, col: 0 })
    );
    assert_eq!(
        g.set_cell(0, CELLS_WIDTH, true),
        Err(OutOfRange { row: 0, col: CELLS_WIDTH })
    );
    assert!(alive_cells(&g).is_empty());
    assert_eq!(g.set_cell(CELLS_HEIGHT - 1, CELLS_WIDTH - 1, true), Ok(()));
    assert_eq!(alive_cells(&g), vec![(CELLS_HEIGHT - 1, CELLS_WIDTH - 1)]);
}

#[test]
fn toggle_running_flips_only_the_mode() {
    let mut g = game_with(&[(1, 1)]);
    g.toggle_running();
    assert!(g.started);
    g.toggle_running();
    assert!(!g.started);
    assert_eq!(alive_cells(&g), vec![(1, 1)]);
}

#[test]
fn pixels_map_to_cells() {
    // 1200 pixels hold 90 columns and 800 pixels hold 60 rows: 40/3 pixels a cell.
    assert_eq!(cell_at_pixel(0, 0), (0, 0));
    assert_eq!(cell_at_pixel(13, 13), (0, 0));
    assert_eq!(cell_at_pixel(14, 27), (2, 1));
    assert_eq!(cell_at_pixel(1199, 799), (59, 89));
    assert_eq!(cell_at_pixel(1200, 800), (60, 90));
    assert_eq!(cell_at_pixel(usize::MAX, 0).1, (usize::MAX / 40) * 3 + 3 * (usize::MAX % 40) / 40);
}

#[test]
fn clicks_edit_only_while_stopped() {
    let mut g = MainGame::new();
    assert_eq!(g.edit_at_pixel(14, 27, true), Ok(()));
    assert_eq!(alive_cells(&g), vec![(2, 1)]);
    assert_eq!(g.edit_at_pixel(1300, 10, true), Err(OutOfRange { row: 0, col: 97 }));
    assert_eq!(g.edit_at_pixel(14, 27, false), Ok(()));
    assert!(alive_cells(&g).is_empty());
    g.toggle_running();
    assert_eq!(g.edit_at_pixel(14, 27, true), Ok(()));
    assert!(alive_cells(&g).is_empty());
}

#[test]
fn ticks_advance_only_while_running() {
    let mut g = game_with(&[(2, 1), (2, 2), (2, 3)]);
    assert!(!g.tick());
    assert_eq!(g.cycle, 0);
    assert_eq!(alive_cells(&g), vec![(2, 1), (2, 2), (2, 3)]);
    g.toggle_running();
    assert!(g.tick());
    assert_eq!(g.cycle, 1);
    assert_eq!(alive_cells(&g), vec![(1, 2), (2, 2), (3, 2)]);
}

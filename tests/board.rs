use minesweeper::board::Board;
use minesweeper::tile::{Tile, TileState};

fn layout(rows: usize, cols: usize, mines: &[(usize, usize)]) -> Board {
    let mut mask = vec![false; rows * cols];
    for &(r, c) in mines {
        mask[r * cols + c] = true;
    }
    Board::from_mines(rows, cols, &mask).expect("mask has one entry per cell")
}

fn brute_force_count(board: &Board, r: usize, c: usize) -> i32 {
    let mut n = 0;
    for dr in -1i64..=1 {
        for dc in -1i64..=1 {
            if dr == 0 && dc == 0 {
                continue;
            }
            let nr = r as i64 + dr;
            let nc = c as i64 + dc;
            if nr < 0 || nc < 0 || nr >= board.rows() as i64 || nc >= board.cols() as i64 {
                continue;
            }
            if board.tile(nr as usize, nc as usize).has_mine {
                n += 1;
            }
        }
    }
    n
}

fn count_mines(board: &Board) -> usize {
    let mut n = 0;
    for r in 0..board.rows() {
        for c in 0..board.cols() {
            if board.tile(r, c).has_mine {
                n += 1;
            }
        }
    }
    n
}

fn state(board: &Board, r: usize, c: usize) -> TileState {
    board.tile(r, c).state
}

#[test]
fn tile_default_is_hidden_and_empty() {
    let t = Tile::default();
    assert!(!t.has_mine);
    assert_eq!(t.state, TileState::Hidden);
    assert_eq!(t.num_mines_around, 0);
}

#[test]
fn tile_update_num_mines_around_sets_count() {
    let mut t = Tile::default();
    t.update_num_mines_around(3);
    assert_eq!(t.num_mines_around, 3);
    assert_eq!(t.state, TileState::Hidden);
}

#[test]
fn fixture_counts_match_brute_force() {
    let board = layout(3, 3, &[(0, 0), (2, 2)]);
    let expected = [[0, 1, 0], [1, 2, 1], [0, 1, 0]];
    for r in 0..3 {
        for c in 0..3 {
            assert_eq!(board.tile(r, c).num_mines_around, expected[r][c], "cell ({}, {})", r, c);
            assert_eq!(board.tile(r, c).num_mines_around, brute_force_count(&board, r, c));
        }
    }
    assert_eq!(board.total_mines(), 2);
    assert_eq!(board.flagged_count(), 0);
}

#[test]
fn fixture_counts_every_neighbour() {
    let board = layout(3, 3, &[(0, 0), (0, 1), (0, 2), (1, 0), (1, 2), (2, 0), (2, 1), (2, 2)]);
    assert_eq!(board.tile(1, 1).num_mines_around, 8);
    assert_eq!(board.tile(0, 0).num_mines_around, 2);
}

#[test]
fn from_mines_rejects_wrong_length() {
    assert!(Board::from_mines(2, 2, &vec![false; 3]).is_none());
    assert!(Board::from_mines(2, 2, &vec![false; 4]).is_some());
}

#[test]
fn generated_boards_hold_the_requested_mines() {
    for &(rows, cols, mines) in &[(9usize, 9usize, 10usize), (16, 16, 40), (16, 30, 99), (2, 2, 3), (1, 2, 1)] {
        let board = Board::generate(rows, cols, mines);
        assert_eq!(count_mines(&board), mines);
        assert_eq!(board.total_mines(), mines);
        for r in 0..rows {
            for c in 0..cols {
                assert_eq!(state(&board, r, c), TileState::Hidden);
                assert_eq!(board.tile(r, c).num_mines_around, brute_force_count(&board, r, c));
            }
        }
    }
}

#[test]
fn mine_ranks_pick_among_free_cells() {
    // rank 3 of four free cells is the last one; then rank 0 is the first.
    let board = Board::from_mine_ranks(2, 2, &vec![3, 0]);
    assert!(board.tile(1, 1).has_mine);
    assert!(board.tile(0, 0).has_mine);
    assert!(!board.tile(0, 1).has_mine);
    assert!(!board.tile(1, 0).has_mine);
    assert_eq!(board.total_mines(), 2);
    // rank 0 three times fills the first three cells.
    let board = Board::from_mine_ranks(2, 2, &vec![0, 0, 0]);
    assert_eq!(count_mines(&board), 3);
    assert!(!board.tile(1, 1).has_mine);
}

#[test]
fn flood_opens_zero_region_and_border_only() {
    // a wall of mines in column 2 parts the grid
    let mut board = layout(3, 5, &[(0, 2), (1, 2), (2, 2)]);
    let exploded = board.reveal_tile(0, 0);
    assert!(!exploded);
    for r in 0..3 {
        assert_eq!(state(&board, r, 0), TileState::Revealed);
        assert_eq!(state(&board, r, 1), TileState::Revealed);
        assert_eq!(state(&board, r, 2), TileState::Hidden);
        assert_eq!(state(&board, r, 3), TileState::Hidden);
        assert_eq!(state(&board, r, 4), TileState::Hidden);
    }
}

#[test]
fn flood_opens_whole_board_around_one_mine() {
    let mut board = layout(4, 4, &[(3, 3)]);
    board.reveal_tile(0, 0);
    for r in 0..4 {
        for c in 0..4 {
            let expected = if (r, c) == (3, 3) { TileState::Hidden } else { TileState::Revealed };
            assert_eq!(state(&board, r, c), expected);
        }
    }
    assert!(!board.has_won());
}

#[test]
fn flood_leaves_flagged_cell_alone() {
    let mut board = layout(3, 5, &[(0, 2), (1, 2), (2, 2)]);
    board.toggle_flag(1, 0);
    board.reveal_tile(0, 0);
    assert_eq!(state(&board, 1, 0), TileState::Flagged);
    assert_eq!(state(&board, 0, 1), TileState::Revealed);
    assert_eq!(state(&board, 1, 1), TileState::Revealed);
    // (2, 0) is reached only through the flagged zero cell
    assert_eq!(state(&board, 2, 0), TileState::Hidden);
    assert_eq!(state(&board, 2, 1), TileState::Hidden);
}

#[test]
fn revealing_a_numbered_cell_opens_its_safe_neighbours() {
    let mut board = layout(3, 3, &[(0, 0)]);
    board.reveal_tile(1, 1);
    for r in 0..3 {
        for c in 0..3 {
            let expected = if (r, c) == (0, 0) { TileState::Hidden } else { TileState::Revealed };
            assert_eq!(state(&board, r, c), expected);
        }
    }
}

#[test]
fn revealing_a_mine_reports_it() {
    let mut board = layout(2, 2, &[(0, 0)]);
    assert!(board.reveal_tile(0, 0));
    assert_eq!(state(&board, 0, 0), TileState::Revealed);
    assert_eq!(state(&board, 1, 1), TileState::Hidden);
    // a second click on the exploded mine does nothing
    assert!(!board.reveal_tile(0, 0));
}

#[test]
fn reveal_out_of_bounds_and_on_flag_is_ignored() {
    let mut board = layout(2, 2, &[(0, 0)]);
    assert!(!board.reveal_tile(5, 0));
    board.toggle_flag(1, 1);
    board.reveal_tile(1, 1);
    assert_eq!(state(&board, 1, 1), TileState::Flagged);
}

#[test]
fn chord_needs_flags_that_account_for_the_mines() {
    let mut board = layout(3, 3, &[(0, 0)]);
    board.toggle_flag(1, 0);
    board.reveal_tile(1, 1);
    assert_eq!(state(&board, 1, 0), TileState::Flagged);
    assert_eq!(state(&board, 0, 0), TileState::Hidden);
    // the flag on (1, 0) is wrong: not cleared
    board.toggle_flag(0, 0);
    assert!(!board.is_tile_cleared(1, 1));
    // with only the mine flagged the cell is cleared, and a chord opens (1, 0)
    board.toggle_flag(1, 0);
    assert_eq!(state(&board, 1, 0), TileState::Hidden);
    assert!(board.is_tile_cleared(1, 1));
    board.click_on_shown_tile(1, 1);
    assert_eq!(state(&board, 1, 0), TileState::Revealed);
    assert!(board.has_won());
}

#[test]
fn chord_without_flags_does_nothing() {
    let mut board = layout(3, 3, &[(0, 0)]);
    board.toggle_flag(1, 0);
    board.reveal_tile(1, 1);
    board.toggle_flag(1, 0);
    assert!(!board.is_tile_cleared(1, 1));
    board.reveal_tile(1, 1);
    assert_eq!(state(&board, 1, 0), TileState::Hidden);
}

#[test]
fn flag_on_then_off_restores_count() {
    let mut board = layout(3, 3, &[(0, 0), (2, 2)]);
    assert_eq!(board.remaining_mine_count(), 2);
    board.toggle_flag(1, 1);
    assert_eq!(board.flagged_count(), 1);
    assert_eq!(board.remaining_mine_count(), 1);
    assert_eq!(state(&board, 1, 1), TileState::Flagged);
    board.toggle_flag(1, 1);
    assert_eq!(board.flagged_count(), 0);
    assert_eq!(board.remaining_mine_count(), 2);
    assert_eq!(state(&board, 1, 1), TileState::Hidden);
}

#[test]
fn over_flagging_goes_negative() {
    let mut board = layout(2, 2, &[(0, 0)]);
    board.toggle_flag(0, 0);
    board.toggle_flag(0, 1);
    board.toggle_flag(1, 0);
    assert_eq!(board.flagged_count(), 3);
    assert_eq!(board.remaining_mine_count(), -2);
}

#[test]
fn flag_on_revealed_or_outside_is_ignored() {
    let mut board = layout(2, 2, &[(0, 0)]);
    board.reveal_tile(1, 1);
    board.toggle_flag(1, 1);
    assert_eq!(state(&board, 1, 1), TileState::Revealed);
    assert_eq!(board.flagged_count(), 0);
    board.toggle_flag(2, 0);
    assert_eq!(board.flagged_count(), 0);
}

#[test]
fn win_needs_flagged_mines_and_revealed_cells() {
    let mut board = layout(3, 3, &[(0, 0)]);
    board.toggle_flag(0, 0);
    assert!(!board.has_won());
    // (2, 2) has no mine around it: the flood opens every safe cell
    board.reveal_tile(2, 2);
    assert!(board.has_won());
    board.toggle_flag(0, 0);
    assert!(!board.has_won());
}

#[test]
fn revealing_next_to_the_only_mine_opens_the_rest() {
    let mut board = layout(2, 2, &[(0, 0)]);
    board.reveal_tile(0, 1);
    assert_eq!(state(&board, 1, 0), TileState::Revealed);
    assert_eq!(state(&board, 1, 1), TileState::Revealed);
    assert_eq!(state(&board, 0, 0), TileState::Hidden);
    assert!(!board.has_won());
}

#[test]
fn empty_board_has_no_cells() {
    let board = Board::empty();
    assert_eq!(board.rows(), 0);
    assert_eq!(board.cols(), 0);
    assert_eq!(board.total_mines(), 0);
}

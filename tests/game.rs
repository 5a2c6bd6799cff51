use minesweeper::board::Board;
use minesweeper::config::{Config, GameLevelConfig};
use minesweeper::diagnostics::Diagnostics;
use minesweeper::game::{screen_to_cell, ConfigError, Game, LEFT, TOP};
use minesweeper::game_controls::GameControls;
use minesweeper::game_state::GameState;
use minesweeper::tile::TileState;
use minesweeper::utils::{current_time_seconds, get_time_diff};
use minesweeper::vector2::Vector2;

fn board_with(rows: usize, cols: usize, mines: &[(usize, usize)]) -> Board {
    let mut mask = vec![false; rows * cols];
    for &(r, c) in mines {
        mask[r * cols + c] = true;
    }
    Board::from_mines(rows, cols, &mask).expect("mask has one entry per cell")
}

fn playing(rows: usize, cols: usize, mines: &[(usize, usize)]) -> Game {
    let mut game = Game::new();
    game.start_with_board(board_with(rows, cols, mines), 1000);
    game
}

fn snapshot(game: &Game) -> Vec<TileState> {
    let b = game.board();
    let mut v = Vec::new();
    for r in 0..b.rows() {
        for c in 0..b.cols() {
            v.push(b.tile(r, c).state);
        }
    }
    v
}

#[test]
fn new_game_is_not_started() {
    let game = Game::new();
    assert_eq!(game.get_state(), GameState::NotStarted);
    assert_eq!(game.rows(), 0);
    assert_eq!(game.cols(), 0);
}

#[test]
fn start_rejects_bad_configuration() {
    let mut game = Game::new();
    assert_eq!(game.start(0, 9, 10), Err(ConfigError::NonPositiveSize));
    assert_eq!(game.start(9, -1, 10), Err(ConfigError::NonPositiveSize));
    assert_eq!(game.start(3, 3, 9), Err(ConfigError::MineCountOutOfRange));
    assert_eq!(game.start(3, 3, 0), Err(ConfigError::MineCountOutOfRange));
    assert_eq!(game.start(50000, 50000, 10), Err(ConfigError::TooManyCells));
    assert_eq!(game.get_state(), GameState::NotStarted);
}

#[test]
fn start_places_the_preset_mines() {
    let mut game = Game::new();
    assert_eq!(game.start(16, 30, 99), Ok(()));
    assert_eq!(game.get_state(), GameState::Playing);
    assert_eq!(game.rows(), 16);
    assert_eq!(game.cols(), 30);
    assert_eq!(game.board().total_mines(), 99);
    assert_eq!(game.remaining_mine_count(), 99);
    let mut mines = 0;
    for r in 0..16 {
        for c in 0..30 {
            if game.board().tile(r, c).has_mine {
                mines += 1;
            }
        }
    }
    assert_eq!(mines, 99);
    assert!(game.start_time() > 1_600_000_000);
}

#[test]
fn win_detection_on_two_by_two() {
    let mut game = playing(2, 2, &[(0, 0)]);
    game.flag_cell(0, 0);
    // flagged mine, safe cells still hidden: not won
    assert!(!game.has_won());
    assert_eq!(game.get_state(), GameState::Playing);
    // revealing (0, 1) opens it and, by the flood, its safe neighbours
    game.reveal_cell(0, 1);
    assert_eq!(game.board().tile(1, 0).state, TileState::Revealed);
    assert_eq!(game.board().tile(1, 1).state, TileState::Revealed);
    assert!(game.has_won());
    assert_eq!(game.get_state(), GameState::GameWon);
}

#[test]
fn win_needs_the_mine_flagged() {
    let mut game = playing(2, 2, &[(0, 0)]);
    game.reveal_cell(0, 1);
    game.reveal_cell(1, 0);
    game.reveal_cell(1, 1);
    // all three safe cells revealed, the mine not flagged: not won
    assert!(!game.has_won());
    assert_eq!(game.get_state(), GameState::Playing);
    game.flag_cell(0, 0);
    assert!(game.has_won());
    assert_eq!(game.get_state(), GameState::GameWon);
}

#[test]
fn loss_is_final() {
    let mut game = playing(3, 3, &[(0, 0), (2, 2)]);
    game.reveal_cell(0, 0);
    assert_eq!(game.get_state(), GameState::GameOver);
    let before = snapshot(&game);
    game.reveal_cell(1, 1);
    game.flag_cell(2, 2);
    game.reveal_cell(0, 2);
    assert_eq!(snapshot(&game), before);
    assert_eq!(game.get_state(), GameState::GameOver);
    assert_eq!(game.board().flagged_count(), 0);
}

#[test]
fn actions_before_start_are_ignored() {
    let mut game = Game::new();
    game.reveal_cell(0, 0);
    game.flag_cell(0, 0);
    game.make_move(Vector2::new(20, 70), Vector2::new(800, 600));
    assert_eq!(game.get_state(), GameState::NotStarted);
}

#[test]
fn tile_size_fits_the_screen() {
    let game = playing(9, 9, &[(0, 0)]);
    // (200 - 20) / 9 = 20 across, (280 - 80) / 9 = 22 down
    assert_eq!(game.get_tile_size(Vector2::new(200, 280)), 20);
    assert_eq!(game.get_tile_size(Vector2::new(10, 280)), 0);
}

#[test]
fn clicks_map_to_cells() {
    let mut game = playing(3, 3, &[(0, 0)]);
    let screen = Vector2::new(80, 140); // cells of 20 pixels
    game.mark_tile(Vector2::new(LEFT + 20 * 0 + 3, TOP + 20 * 0 + 19), screen);
    assert_eq!(game.board().tile(0, 0).state, TileState::Flagged);
    assert_eq!(game.remaining_mine_count(), 0);
    game.make_move(Vector2::new(LEFT + 20 * 2 + 5, TOP + 20 * 2 + 5), screen);
    assert_eq!(game.get_state(), GameState::GameWon);
}

#[test]
fn clicks_outside_the_grid_are_ignored() {
    let mut game = playing(3, 3, &[(0, 0)]);
    let screen = Vector2::new(80, 140);
    game.make_move(Vector2::new(LEFT - 1, TOP + 5), screen);
    game.make_move(Vector2::new(LEFT + 5, TOP - 1), screen);
    game.make_move(Vector2::new(LEFT + 60, TOP + 5), screen);
    game.mark_tile(Vector2::new(LEFT + 5, TOP + 60), screen);
    for r in 0..3 {
        for c in 0..3 {
            assert_eq!(game.board().tile(r, c).state, TileState::Hidden);
        }
    }
}

#[test]
fn screen_to_cell_round_trip() {
    let origin = Vector2::new(LEFT, TOP);
    for r in 0..4usize {
        for c in 0..5usize {
            for &(dx, dy) in &[(0, 0), (7, 3), (19, 19)] {
                let p = Vector2::new(LEFT + c as i32 * 20 + dx, TOP + r as i32 * 20 + dy);
                assert_eq!(screen_to_cell(p, origin, 20, 4, 5), Some((r, c)));
            }
        }
    }
    assert_eq!(screen_to_cell(Vector2::new(LEFT - 1, TOP), origin, 20, 4, 5), None);
    assert_eq!(screen_to_cell(Vector2::new(LEFT, TOP - 1), origin, 20, 4, 5), None);
    assert_eq!(screen_to_cell(Vector2::new(LEFT + 5 * 20, TOP), origin, 20, 4, 5), None);
    assert_eq!(screen_to_cell(Vector2::new(LEFT, TOP + 4 * 20), origin, 20, 4, 5), None);
    assert_eq!(screen_to_cell(Vector2::new(LEFT, TOP), origin, 0, 4, 5), None);
}

#[test]
fn click_on_shown_tile_opens_neighbours() {
    let mut game = playing(3, 3, &[(0, 0)]);
    game.flag_cell(1, 0);
    game.reveal_cell(1, 1);
    game.flag_cell(1, 0);
    game.flag_cell(0, 0);
    game.click_on_shown_tile(Vector2::new(1, 1));
    assert_eq!(game.board().tile(1, 0).state, TileState::Revealed);
}

#[test]
fn elapsed_time_of_a_finished_game() {
    let mut game = playing(2, 2, &[(0, 0)]);
    assert_eq!(game.elapsed_time_at(1125), (2, 5));
    game.reveal_cell(0, 0);
    assert_eq!(game.get_state(), GameState::GameOver);
    let end = game.end_time();
    assert!(end >= current_time_seconds() - 5);
    assert_eq!(game.elapsed_time(), get_time_diff(1000, end));
}

#[test]
fn time_diff_splits_minutes_and_seconds() {
    assert_eq!(get_time_diff(0, 125), (2, 5));
    assert_eq!(get_time_diff(100, 100), (0, 0));
    assert_eq!(get_time_diff(100, 50), (0, 0));
    assert_eq!(get_time_diff(i64::MIN, i64::MAX), (i32::MAX, ((i64::MAX as i128 - i64::MIN as i128) % 60) as i32));
}

#[test]
fn controls_list_level_names() {
    let config = Config {
        levels: vec![
            GameLevelConfig { name: "Beginner".to_string(), rows: 9, cols: 9, mines: 10 },
            GameLevelConfig { name: "Expert".to_string(), rows: 16, cols: 30, mines: 99 },
        ],
    };
    let controls = GameControls::new(&config);
    assert_eq!(controls.len(), 2);
    assert_eq!(controls.label(0), "Beginner");
    assert_eq!(controls.label(1), "Expert");
}

#[test]
fn diagnostics_sample_every_fiftieth_frame() {
    let mut d = Diagnostics::new();
    for _ in 0..49 {
        assert!(!d.on_loop());
    }
    assert!(d.on_loop());
    d.record_fps(60);
    assert_eq!(d.last_fps(), 60);
    assert!(!d.on_loop());
    assert_eq!(d.frames(), 51);
}

#[test]
fn vector_arithmetic() {
    let a = Vector2::new(7, -7);
    let b = Vector2::new(2, 2);
    assert_eq!(a.add(b), Vector2::new(9, -5));
    assert_eq!(a.sub(b), Vector2::new(5, -9));
    assert_eq!(a.add_val(1), Vector2::new(8, -6));
    assert_eq!(a.scale(3), Vector2::new(21, -21));
    assert_eq!(a.div(b), Vector2::new(3, -3));
    assert_eq!(a.div(Vector2::new(-2, -2)), Vector2::new(-3, 3));
    assert_eq!(Vector2::new(i32::MIN, 5).div(Vector2::new(1, 5)), Vector2::new(i32::MIN, 1));
    assert_eq!(a.min_component(), -7);
    assert_eq!(Vector2::new(3, 3).min_component(), 3);
}

#[test]
fn end_at_records_the_clock_reading() {
    let mut game = playing(2, 2, &[(0, 0)]);
    game.end_at(GameState::GameOver, 4321);
    assert_eq!(game.get_state(), GameState::GameOver);
    assert_eq!(game.end_time(), 4321);
    assert_eq!(game.start_time(), 1000);
}

#[test]
fn losing_stops_the_clock_at_the_reading() {
    let mut game = playing(3, 3, &[(0, 0), (2, 2)]);
    game.reveal_cell_at(1, 1, 1500);
    assert_eq!(game.get_state(), GameState::Playing);
    assert_eq!(game.end_time(), 0);
    game.reveal_cell_at(2, 2, 1600);
    assert_eq!(game.get_state(), GameState::GameOver);
    assert_eq!(game.end_time(), 1600);
    assert_eq!(game.elapsed_time_at(99999), (10, 0));
    // further actions change nothing, the end time included
    game.reveal_cell_at(0, 0, 1700);
    game.flag_cell_at(0, 0, 1800);
    assert_eq!(game.end_time(), 1600);
    assert_eq!(game.board().tile(0, 0).state, TileState::Hidden);
}

#[test]
fn winning_stops_the_clock_at_the_reading() {
    let mut game = playing(2, 2, &[(0, 0)]);
    game.reveal_cell_at(1, 1, 1010);
    assert_eq!(game.get_state(), GameState::Playing);
    game.flag_cell_at(0, 0, 1042);
    assert_eq!(game.get_state(), GameState::GameWon);
    assert_eq!(game.end_time(), 1042);
}

#[test]
fn ignored_actions_change_nothing() {
    let mut game = playing(2, 2, &[(0, 0)]);
    game.flag_cell_at(0, 0, 1001);
    game.reveal_cell_at(0, 0, 1002); // on a flag
    game.reveal_cell_at(5, 5, 1003); // off the grid
    assert_eq!(game.board().tile(0, 0).state, TileState::Flagged);
    assert_eq!(game.get_state(), GameState::Playing);
    game.reveal_cell_at(0, 1, 1004);
    assert_eq!(game.get_state(), GameState::GameWon);
    assert_eq!(game.end_time(), 1004);
    let mut game = playing(2, 2, &[(0, 0)]);
    game.reveal_cell_at(1, 1, 1005);
    game.flag_cell_at(1, 1, 1006); // on a revealed tile
    assert_eq!(game.board().tile(1, 1).state, TileState::Revealed);
    assert_eq!(game.board().flagged_count(), 0);
    assert_eq!(game.get_state(), GameState::Playing);
    assert_eq!(game.end_time(), 0);
}

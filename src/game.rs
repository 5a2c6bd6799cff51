//! A game session: one board, the session state and its clock, and the
//! mapping from screen points to cells.

use vstd::prelude::*;
use crate::board::{count_mines, Board, BoardView};
pub use crate::game_state::GameState;
use crate::tile::TileState;
use crate::utils::{current_time_seconds, get_time_diff, time_diff};
use crate::vector2::Vector2;

verus! {

/// Space kept free above the grid, in pixels.
pub const TOP: i32 = 60;

/// Space kept free below the grid, in pixels.
pub const BOTTOM: i32 = 20;

/// Space kept free left of the grid, in pixels.
pub const LEFT: i32 = 10;

/// Space kept free right of the grid, in pixels.
pub const RIGHT: i32 = 10;

/// Why a game could not be started.
#[derive(Debug, Clone, Copy, PartialEq, Eq, Structural)]
pub enum ConfigError {
    /// Rows or columns not positive.
    NonPositiveSize,
    /// More than `i32::MAX` cells.
    TooManyCells,
    /// The mine count is not above zero and below the number of cells.
    MineCountOutOfRange,
}

/// What `start` rejects, if anything.
pub open spec fn config_error(rows: int, cols: int, mines: int) -> Option<ConfigError> {
    if rows <= 0 || cols <= 0 {
        Some(ConfigError::NonPositiveSize)
    } else if rows * cols > i32::MAX {
        Some(ConfigError::TooManyCells)
    } else if mines <= 0 || mines >= rows * cols {
        Some(ConfigError::MineCountOutOfRange)
    } else {
        None
    }
}

/// The cell under the screen point `(px, py)`, as `(row, column)`, for a grid
/// whose top-left corner is `(ox, oy)` and whose square cells are `size`
/// pixels wide.
pub open spec fn cell_at_point(px: int, py: int, ox: int, oy: int, size: int, rows: int, cols: int) -> Option<
    (int, int),
> {
    if size <= 0 || px - ox < 0 || py - oy < 0 {
        None
    } else {
        let c = (px - ox) / size;
        let r = (py - oy) / size;
        if r < rows && c < cols {
            Some((r, c))
        } else {
            None
        }
    }
}

/// Side of a cell, in pixels, for a screen of `sw` by `sh` pixels: the grid
/// fills what the margins leave, with square cells.
pub open spec fn tile_size_for(sw: int, sh: int, rows: int, cols: int) -> int {
    if rows <= 0 || cols <= 0 || sw < LEFT + RIGHT || sh < TOP + BOTTOM {
        0
    } else {
        let w = (sw - LEFT - RIGHT) / cols;
        let h = (sh - TOP - BOTTOM) / rows;
        if w < h {
            w
        } else {
            h
        }
    }
}

/// A reveal at `(r, c)` that is ignored: off the grid, on a flag, or on a
/// revealed mine.
pub open spec fn reveal_ignored(b: BoardView, r: int, c: int) -> bool {
    !b.in_bounds(r, c) || b.tile(r, c).state == TileState::Flagged || (b.tile(r, c).state
        == TileState::Revealed && b.tile(r, c).has_mine)
}

/// The session state after the player reveals `(r, c)` on board `b` during
/// play: an ignored reveal keeps the game going, a hidden mine loses it, and
/// otherwise a board with every mine flagged and every other tile revealed
/// wins it.
pub open spec fn state_after_reveal(b: BoardView, r: int, c: int) -> GameState {
    if reveal_ignored(b, r, c) {
        GameState::Playing
    } else if b.tile(r, c).state == TileState::Hidden && b.tile(r, c).has_mine {
        GameState::GameOver
    } else if b.revealed_at(r, c).is_won() {
        GameState::GameWon
    } else {
        GameState::Playing
    }
}

/// The session state after the player toggles a flag on `(r, c)` during
/// play: off the grid or on a revealed tile the flag is ignored; otherwise a
/// board with every mine flagged and every other tile revealed wins.
pub open spec fn state_after_flag(b: BoardView, r: int, c: int) -> GameState {
    if b.in_bounds(r, c) && b.tile(r, c).state != TileState::Revealed && b.toggled(r, c).is_won() {
        GameState::GameWon
    } else {
        GameState::Playing
    }
}

/// What a session holds, as mathematical values.
pub struct GameView {
    pub state: GameState,
    pub board: BoardView,
    pub start_time: int,
    pub end_time: int,
}

impl GameView {
    /// State and board after the player reveals `(r, c)`; nothing changes
    /// unless the game is being played.
    pub open spec fn after_reveal(self, r: int, c: int) -> (GameState, BoardView) {
        if self.state == GameState::Playing {
            (state_after_reveal(self.board, r, c), self.board.revealed_at(r, c))
        } else {
            (self.state, self.board)
        }
    }

    /// State and board after the player toggles a flag on `(r, c)`; nothing
    /// changes unless the game is being played.
    pub open spec fn after_flag(self, r: int, c: int) -> (GameState, BoardView) {
        if self.state == GameState::Playing {
            (state_after_flag(self.board, r, c), self.board.toggled(r, c))
        } else {
            (self.state, self.board)
        }
    }
}

/// One game session.
pub struct Game {
    board: Board,
    start_time: i64,
    end_time: i64,
    state: GameState,
}

impl View for Game {
    type V = GameView;

    closed spec fn view(&self) -> GameView {
        GameView {
            state: self.state,
            board: self.board@,
            start_time: self.start_time as int,
            end_time: self.end_time as int,
        }
    }
}

impl Game {
    pub open spec fn wf(&self) -> bool {
        self@.board.wf()
    }

    /// A session that has not started: an empty board.
    pub fn new() -> (g: Game)
        ensures
            g.wf(),
            g@.state == GameState::NotStarted,
            g@.board.rows == 0,
            g@.board.cols == 0,
            g@.start_time == 0,
            g@.end_time == 0,
    {
        Game { board: Board::empty(), start_time: 0, end_time: 0, state: GameState::NotStarted }
    }

    /// Starts a fresh game of `rows` by `cols` cells with `num_of_mines`
    /// mines placed at random, with the clock set to now. On a configuration
    /// error nothing changes.
    pub fn start(&mut self, rows: i32, cols: i32, num_of_mines: i32) -> (res: Result<(), ConfigError>)
        requires
            old(self).wf(),
        ensures
            final(self).wf(),
            match config_error(rows as int, cols as int, num_of_mines as int) {
                Some(e) => res == Err::<(), ConfigError>(e) && *final(self) == *old(self),
                None => {
                    &&& res is Ok
                    &&& final(self)@.state == GameState::Playing
                    &&& final(self)@.board.rows == rows
                    &&& final(self)@.board.cols == cols
                    &&& final(self)@.board.total_mines == num_of_mines
                    &&& final(self)@.board.tiles.len() == rows * cols
                    &&& count_mines(final(self)@.board.tiles) == num_of_mines
                    &&& final(self)@.board.flagged_count == 0
                    &&& forall|i: int|
                        0 <= i < final(self)@.board.tiles.len() ==> (#[trigger] final(self)@.board.tiles[i]).state
                            == TileState::Hidden
                },
            },
    {
        if rows <= 0 || cols <= 0 {
            return Err(ConfigError::NonPositiveSize);
        }
        assert(0 < rows * cols <= i32::MAX * i32::MAX) by (nonlinear_arith)
            requires
                0 < rows <= i32::MAX,
                0 < cols <= i32::MAX,
        ;
        let cells: i64 = rows as i64 * cols as i64;
        if cells > i32::MAX as i64 {
            return Err(ConfigError::TooManyCells);
        }
        if num_of_mines <= 0 || num_of_mines as i64 >= cells {
            return Err(ConfigError::MineCountOutOfRange);
        }
        let board = Board::generate(rows as usize, cols as usize, num_of_mines as usize);
        let now = current_time_seconds();
        self.start_with_board(board, now);
        Ok(())
    }

    /// Starts a game on `board`, with the clock set to `now`.
    pub fn start_with_board(&mut self, board: Board, now: i64)
        requires
            board@.wf(),
        ensures
            final(self).wf(),
            final(self)@.state == GameState::Playing,
            final(self)@.board == board@,
            final(self)@.start_time == now,
            final(self)@.end_time == old(self)@.end_time,
    {
        self.board = board;
        self.start_time = now;
        self.state = GameState::Playing;
    }

    /// Ends the game in `state`, with the clock stopped now.
    pub fn end(&mut self, state: GameState)
        ensures
            final(self)@.state == state,
            final(self)@.board == old(self)@.board,
            final(self)@.start_time == old(self)@.start_time,
    {
        let now = current_time_seconds();
        self.end_at(state, now);
    }

    /// Ends the game in `state`, with the clock stopped at `now`.
    pub fn end_at(&mut self, state: GameState, now: i64)
        ensures
            final(self)@.state == state,
            final(self)@.board == old(self)@.board,
            final(self)@.start_time == old(self)@.start_time,
            final(self)@.end_time == now,
    {
        self.state = state;
        self.end_time = now;
    }

    pub fn get_state(&self) -> (s: GameState)
        ensures
            s == self@.state,
    {
        self.state
    }

    pub fn board(&self) -> (b: &Board)
        ensures
            b@ == self@.board,
    {
        &self.board
    }

    pub fn rows(&self) -> (n: usize)
        ensures
            n == self@.board.rows,
    {
        self.board.rows()
    }

    pub fn cols(&self) -> (n: usize)
        ensures
            n == self@.board.cols,
    {
        self.board.cols()
    }

    pub fn start_time(&self) -> (t: i64)
        ensures
            t == self@.start_time,
    {
        self.start_time
    }

    pub fn end_time(&self) -> (t: i64)
        ensures
            t == self@.end_time,
    {
        self.end_time
    }

    /// Every mine is flagged and every other tile is revealed.
    pub fn has_won(&self) -> (won: bool)
        ensures
            won == self@.board.is_won(),
    {
        self.board.has_won()
    }

    /// Mines placed minus flags set, for display; may be negative.
    pub fn remaining_mine_count(&self) -> (n: i32)
        requires
            self.wf(),
        ensures
            n == self@.board.remaining_mines(),
    {
        self.board.remaining_mine_count()
    }

    /// Minutes and seconds of play, measured up to `now` while the game runs
    /// and up to its end once it is over.
    pub fn elapsed_time_at(&self, now: i64) -> (t: (i32, i32))
        ensures
            (t.0 as int, t.1 as int) == time_diff(
                self@.start_time,
                if self@.state == GameState::GameOver || self@.state == GameState::GameWon {
                    self@.end_time
                } else {
                    now as int
                },
            ),
    {
        let end = match self.state {
            GameState::GameOver | GameState::GameWon => self.end_time,
            _ => now,
        };
        get_time_diff(self.start_time, end)
    }

    /// Minutes and seconds of play, up to the current time while the game runs.
    pub fn elapsed_time(&self) -> (t: (i32, i32))
        ensures
            self@.state == GameState::GameOver || self@.state == GameState::GameWon ==> (t.0 as int, t.1 as int)
                == time_diff(self@.start_time, self@.end_time),
            exists|now: i64| (t.0 as int, t.1 as int) == time_diff(self@.start_time, now as int),
    {
        let now = current_time_seconds();
        let t = self.elapsed_time_at(now);
        proof {
            let end = if self@.state == GameState::GameOver || self@.state == GameState::GameWon {
                self.end_time
            } else {
                now
            };
            assert((t.0 as int, t.1 as int) == time_diff(self@.start_time, end as int));
        }
        t
    }

    /// Side of a cell, in pixels, on a screen of `screen.x` by `screen.y` pixels.
    pub fn get_tile_size(&self, screen: Vector2<i32>) -> (size: i32)
        requires
            self.wf(),
        ensures
            size == tile_size_for(screen.x as int, screen.y as int, self@.board.rows, self@.board.cols),
    {
        let rows = self.board.rows();
        let cols = self.board.cols();
        if rows == 0 || cols == 0 || screen.x < LEFT + RIGHT || screen.y < TOP + BOTTOM {
            return 0;
        }
        assert(rows <= rows * cols && cols <= rows * cols) by (nonlinear_arith)
            requires
                rows >= 1,
                cols >= 1,
        ;
        let avail = screen.sub(Vector2::new(LEFT, TOP)).sub(Vector2::new(RIGHT, BOTTOM));
        let per_cell = avail.div(Vector2::new(cols as i32, rows as i32));
        per_cell.min_component()
    }

    /// The cell under the screen point `pos`, as `(row, column)`.
    fn resolve_tile_position(&self, pos: Vector2<i32>, screen: Vector2<i32>) -> (cell: Option<(usize, usize)>)
        requires
            self.wf(),
        ensures
            match cell {
                Some((r, c)) => self.cell_under(pos, screen) == Some((r as int, c as int)),
                None => self.cell_under(pos, screen) is None,
            },
    {
        let tile_size = self.get_tile_size(screen);
        screen_to_cell(pos, Vector2::new(LEFT, TOP), tile_size, self.board.rows(), self.board.cols())
    }

    /// The cell under the screen point `pos` on a screen of the given size.
    pub open spec fn cell_under(&self, pos: Vector2<i32>, screen: Vector2<i32>) -> Option<(int, int)> {
        cell_at_point(
            pos.x as int,
            pos.y as int,
            LEFT as int,
            TOP as int,
            tile_size_for(screen.x as int, screen.y as int, self@.board.rows, self@.board.cols),
            self@.board.rows,
            self@.board.cols,
        )
    }

    /// The player reveals the cell at row `r`, column `c`. Nothing happens
    /// unless the game is being played; a hidden mine loses the game, and a
    /// board with every mine flagged and every other tile revealed wins it.
    pub fn reveal_cell(&mut self, r: usize, c: usize)
        requires
            old(self).wf(),
        ensures
            final(self).wf(),
            (final(self)@.state, final(self)@.board) == old(self)@.after_reveal(r as int, c as int),
            final(self)@.start_time == old(self)@.start_time,
            final(self)@.state == old(self)@.state ==> final(self)@.end_time == old(self)@.end_time,
            old(self)@.state != GameState::Playing ==> *final(self) == *old(self),
    {
        if self.state != GameState::Playing {
            return;
        }
        let now = current_time_seconds();
        self.reveal_cell_at(r, c, now);
    }

    /// `reveal_cell` with the clock reading `now`: when the game ends, its end
    /// time is `now`.
    pub fn reveal_cell_at(&mut self, r: usize, c: usize, now: i64)
        requires
            old(self).wf(),
        ensures
            final(self).wf(),
            (final(self)@.state, final(self)@.board) == old(self)@.after_reveal(r as int, c as int),
            final(self)@.start_time == old(self)@.start_time,
            final(self)@.end_time == if final(self)@.state == old(self)@.state {
                old(self)@.end_time
            } else {
                now as int
            },
            old(self)@.state != GameState::Playing ==> *final(self) == *old(self),
    {
        if self.state != GameState::Playing {
            return;
        }
        if r >= self.board.rows() || c >= self.board.cols() {
            return;
        }
        let t = self.board.tile(r, c);
        if t.state == TileState::Flagged || (t.state == TileState::Revealed && t.has_mine) {
            return;
        }
        let exploded = self.board.reveal_tile(r, c);
        if exploded {
            self.end_at(GameState::GameOver, now);
            proof {
                let b = self@.board;
                crate::board::lemma_index_in_grid(b, r as int, c as int);
                assert(!b.is_won()) by {
                    let i = r * b.cols + c;
                    assert(b.tiles[i as int].has_mine);
                }
            }
        }
        if self.board.has_won() {
            self.end_at(GameState::GameWon, now);
        }
    }

    /// The player toggles the flag on the cell at row `r`, column `c`.
    /// Nothing happens unless the game is being played; a board with every
    /// mine flagged and every other tile revealed wins the game.
    pub fn flag_cell(&mut self, r: usize, c: usize)
        requires
            old(self).wf(),
        ensures
            final(self).wf(),
            (final(self)@.state, final(self)@.board) == old(self)@.after_flag(r as int, c as int),
            final(self)@.start_time == old(self)@.start_time,
            final(self)@.state == old(self)@.state ==> final(self)@.end_time == old(self)@.end_time,
            old(self)@.state != GameState::Playing ==> *final(self) == *old(self),
    {
        if self.state != GameState::Playing {
            return;
        }
        let now = current_time_seconds();
        self.flag_cell_at(r, c, now);
    }

    /// `flag_cell` with the clock reading `now`: when the game ends, its end
    /// time is `now`.
    pub fn flag_cell_at(&mut self, r: usize, c: usize, now: i64)
        requires
            old(self).wf(),
        ensures
            final(self).wf(),
            (final(self)@.state, final(self)@.board) == old(self)@.after_flag(r as int, c as int),
            final(self)@.start_time == old(self)@.start_time,
            final(self)@.end_time == if final(self)@.state == old(self)@.state {
                old(self)@.end_time
            } else {
                now as int
            },
            old(self)@.state != GameState::Playing ==> *final(self) == *old(self),
    {
        if self.state != GameState::Playing {
            return;
        }
        if r >= self.board.rows() || c >= self.board.cols() {
            return;
        }
        if self.board.tile(r, c).state == TileState::Revealed {
            return;
        }
        self.board.toggle_flag(r, c);
        if self.board.has_won() {
            self.end_at(GameState::GameWon, now);
        }
    }

    /// A left click at the screen point `pos`: reveals the cell under it.
    pub fn make_move(&mut self, pos: Vector2<i32>, screen: Vector2<i32>)
        requires
            old(self).wf(),
        ensures
            final(self).wf(),
            match old(self).cell_under(pos, screen) {
                Some((r, c)) => (final(self)@.state, final(self)@.board) == old(self)@.after_reveal(r, c),
                None => *final(self) == *old(self),
            },
            final(self)@.start_time == old(self)@.start_time,
            final(self)@.state == old(self)@.state ==> final(self)@.end_time == old(self)@.end_time,
            old(self)@.state != GameState::Playing ==> *final(self) == *old(self),
    {
        if self.state != GameState::Playing {
            return;
        }
        match self.resolve_tile_position(pos, screen) {
            Some((r, c)) => self.reveal_cell(r, c),
            None => {},
        }
    }

    /// A right click at the screen point `pos`: toggles the flag under it.
    pub fn mark_tile(&mut self, pos: Vector2<i32>, screen: Vector2<i32>)
        requires
            old(self).wf(),
        ensures
            final(self).wf(),
            match old(self).cell_under(pos, screen) {
                Some((r, c)) => (final(self)@.state, final(self)@.board) == old(self)@.after_flag(r, c),
                None => *final(self) == *old(self),
            },
            final(self)@.start_time == old(self)@.start_time,
            final(self)@.state == old(self)@.state ==> final(self)@.end_time == old(self)@.end_time,
            old(self)@.state != GameState::Playing ==> *final(self) == *old(self),
    {
        if self.state != GameState::Playing {
            return;
        }
        match self.resolve_tile_position(pos, screen) {
            Some((r, c)) => self.flag_cell(r, c),
            None => {},
        }
    }

    /// A click on a revealed numbered cell at grid position `pos` (`x` the
    /// column, `y` the row): opens its neighbours when it is cleared.
    pub fn click_on_shown_tile(&mut self, pos: Vector2<i32>)
        requires
            old(self).wf(),
            old(self)@.board.in_bounds(pos.y as int, pos.x as int),
        ensures
            final(self).wf(),
            final(self)@ == (GameView { board: old(self)@.board.chorded(pos.y as int, pos.x as int), ..old(self)@ }),
    {
        self.board.click_on_shown_tile(pos.y as usize, pos.x as usize);
    }
}

/// Maps a screen point to the cell under it, as `(row, column)`; `None` when
/// the point lies outside the grid or the cells have no size.
pub fn screen_to_cell(point: Vector2<i32>, origin: Vector2<i32>, tile_size: i32, rows: usize, cols: usize) -> (cell:
    Option<(usize, usize)>)
    ensures
        match cell {
            Some((r, c)) => cell_at_point(
                point.x as int,
                point.y as int,
                origin.x as int,
                origin.y as int,
                tile_size as int,
                rows as int,
                cols as int,
            ) == Some((r as int, c as int)),
            None => cell_at_point(
                point.x as int,
                point.y as int,
                origin.x as int,
                origin.y as int,
                tile_size as int,
                rows as int,
                cols as int,
            ) is None,
        },
{
    if tile_size <= 0 {
        return None;
    }
    let dx: i64 = point.x as i64 - origin.x as i64;
    let dy: i64 = point.y as i64 - origin.y as i64;
    if dx < 0 || dy < 0 {
        return None;
    }
    let c = dx / tile_size as i64;
    let r = dy / tile_size as i64;
    assert(c <= dx && r <= dy) by (nonlinear_arith)
        requires
            dx >= 0,
            dy >= 0,
            tile_size >= 1,
            c == dx as int / (tile_size as int),
            r == dy as int / (tile_size as int),
    ;
    if (r as u64) < rows as u64 && (c as u64) < cols as u64 {
        Some((r as usize, c as usize))
    } else {
        None
    }
}

} // verus!

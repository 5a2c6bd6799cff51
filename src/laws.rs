//! Properties that relate several operations of the engine.

use vstd::prelude::*;
use crate::board::{
    adjacent,
    count_mines,
    in_bounds,
    floodable,
    lemma_count_same,
    lemma_index,
    lemma_index_injective,
    lemma_index_split,
    lemma_step_adjacent,
    lemma_steps_cover,
    mined,
    step_col,
    step_row,
    BoardView,
};
use crate::game::{cell_at_point, GameView};
use crate::game_state::GameState;
use crate::tile::TileState;

verus! {

/// The tile at `(r, c)` of a flooded board, read back through the index.
proof fn lemma_flooded_tile(b: BoardView, sr: int, sc: int, r: int, c: int)
    requires
        b.wf(),
        b.in_bounds(r, c),
    ensures
        b.flooded(sr, sc).tile(r, c) == if floodable(b.tile(r, c)) && b.reaches(sr, sc, r, c) {
            b.tile(r, c).with_state(TileState::Revealed)
        } else {
            b.tile(r, c)
        },
{
    let i = r * b.cols + c;
    lemma_index(b.rows, b.cols, r, c);
    lemma_index_split(b.rows, b.cols, i);
    lemma_index_injective(b.rows, b.cols, i / b.cols, i % b.cols, r, c);
}

/// The eight steps that a cell's count runs over reach each in-bounds
/// neighbour of the cell exactly once, and nothing else: so the count is the
/// number of mined cells in the cell's 8-neighbourhood.
pub proof fn lemma_steps_are_the_neighbourhood(rows: int, cols: int, r: int, c: int, r2: int, c2: int)
    requires
        in_bounds(rows, cols, r, c),
    ensures
        forall|k: int|
            0 <= k < 8 && in_bounds(rows, cols, r + step_row(k), c + step_col(k)) ==> adjacent(
                rows,
                cols,
                r,
                c,
                #[trigger] (r + step_row(k)),
                c + step_col(k),
            ),
        adjacent(rows, cols, r, c, r2, c2) ==> exists|k: int|
            0 <= k < 8 && r2 == r + #[trigger] step_row(k) && c2 == c + step_col(k),
        forall|k1: int, k2: int|
            0 <= k1 < 8 && 0 <= k2 < 8 && k1 != k2 ==> #[trigger] step_row(k1) != #[trigger] step_row(k2) || step_col(
                k1,
            ) != step_col(k2),
{
    assert forall|k: int|
        0 <= k < 8 && in_bounds(rows, cols, r + step_row(k), c + step_col(k)) implies adjacent(
        rows,
        cols,
        r,
        c,
        #[trigger] (r + step_row(k)),
        c + step_col(k),
    ) by {
        lemma_step_adjacent(rows, cols, r, c, k);
    }
    if adjacent(rows, cols, r, c, r2, c2) {
        let k = lemma_steps_cover(rows, cols, r, c, r2, c2);
        assert(r2 == r + step_row(k) && c2 == c + step_col(k));
    }
}

/// A flood opens exactly the unopened tiles that it reaches from its start:
/// the connected region of unopened tiles without mines around them that
/// touches the start, with its numbered border. A tile that it opens was
/// reached and holds no mine; a mined tile stays as it was.
pub proof fn lemma_flood_opens_its_region(b: BoardView, sr: int, sc: int, r: int, c: int)
    requires
        b.wf(),
        b.in_bounds(r, c),
    ensures
        floodable(b.tile(r, c)) && b.reaches(sr, sc, r, c) ==> b.flooded(sr, sc).tile(r, c).state
            == TileState::Revealed,
        b.flooded(sr, sc).tile(r, c) != b.tile(r, c) ==> b.reaches(sr, sc, r, c) && !b.tile(r, c).has_mine
            && b.tile(r, c).state == TileState::Hidden,
        b.tile(r, c).has_mine ==> b.flooded(sr, sc).tile(r, c) == b.tile(r, c),
{
    lemma_flooded_tile(b, sr, sc, r, c);
}

/// The flood from `(sr, sc)` opens the whole connected region of unopened
/// tiles without mines around them that touches the start, and its border:
/// for any chain of such tiles, each adjacent to the one before and the first
/// adjacent to the start, every unopened neighbour of the last link (a link
/// of the region, or a numbered tile on its border) is revealed. With
/// `lemma_flood_opens_its_region`, which says every opened tile is reached
/// by such a chain, the flood opens that region and border and nothing else.
pub proof fn lemma_zero_region_opens(b: BoardView, sr: int, sc: int, chain: Seq<(int, int)>, r: int, c: int)
    requires
        b.wf(),
        chain.len() >= 1,
        chain[0] == (sr, sc),
        forall|j: int|
            0 < j < chain.len() ==> floodable(b.tile((#[trigger] chain[j]).0, chain[j].1)) && b.tile(
                chain[j].0,
                chain[j].1,
            ).num_mines_around == 0 && adjacent(
                b.rows,
                b.cols,
                chain[j - 1].0,
                chain[j - 1].1,
                chain[j].0,
                chain[j].1,
            ),
        adjacent(b.rows, b.cols, chain.last().0, chain.last().1, r, c),
        floodable(b.tile(r, c)),
    ensures
        b.flooded(sr, sc).tile(r, c).state == TileState::Revealed,
{
    let path = chain.push((r, c));
    assert forall|j: int| 0 < j < path.len() implies floodable(b.tile((#[trigger] path[j]).0, path[j].1))
        && adjacent(b.rows, b.cols, path[j - 1].0, path[j - 1].1, path[j].0, path[j].1) by {
        if j < chain.len() {
            assert(path[j] == chain[j]);
            assert(path[j - 1] == chain[j - 1]);
        }
    }
    assert forall|j: int| 0 <= j < path.len() - 1 implies b.spreads(sr, sc, (#[trigger] path[j]).0, path[j].1) by {
        assert(path[j] == chain[j]);
    }
    assert(b.is_flood_path(sr, sc, path) && path.last() == (r, c));
    lemma_flooded_tile(b, sr, sc, r, c);
}

/// A flood never opens a flagged tile.
pub proof fn lemma_flood_keeps_flags(b: BoardView, sr: int, sc: int, r: int, c: int)
    requires
        b.wf(),
        b.in_bounds(r, c),
        b.tile(r, c).state == TileState::Flagged,
    ensures
        b.flooded(sr, sc).tile(r, c) == b.tile(r, c),
{
    lemma_flooded_tile(b, sr, sc, r, c);
}

/// Revealing a cell leaves every flag on the board where it was.
pub proof fn lemma_reveal_keeps_flags(b: BoardView, r: int, c: int, r2: int, c2: int)
    requires
        b.wf(),
        b.in_bounds(r2, c2),
        b.tile(r2, c2).state == TileState::Flagged,
    ensures
        b.revealed_at(r, c).tile(r2, c2) == b.tile(r2, c2),
{
    let t = b.tile(r, c);
    if b.in_bounds(r, c) {
        lemma_index(b.rows, b.cols, r, c);
        lemma_index(b.rows, b.cols, r2, c2);
        if r * b.cols + c == r2 * b.cols + c2 {
            lemma_index_injective(b.rows, b.cols, r, c, r2, c2);
        }
        if t.state == TileState::Hidden {
            let opened = b.set_state(r, c, TileState::Revealed);
            assert(opened.tile(r2, c2) == b.tile(r2, c2));
            if !t.has_mine {
                lemma_opened_wf(b, r, c);
                lemma_flooded_tile(opened, r, c, r2, c2);
            }
        } else if t.state == TileState::Revealed && !t.has_mine && b.chorded(r, c) != b {
            lemma_flooded_tile(b, r, c, r2, c2);
        }
    }
}

/// Revealing a hidden tile keeps the board well formed.
proof fn lemma_opened_wf(b: BoardView, r: int, c: int)
    requires
        b.wf(),
        b.in_bounds(r, c),
        b.tile(r, c).state == TileState::Hidden,
    ensures
        b.set_state(r, c, TileState::Revealed).wf(),
{
    crate::board::lemma_set_state(b, r, c, TileState::Revealed);
}

/// The mines of a board never move: revealing or flagging keeps every
/// tile's mine, and so the number of mines.
pub proof fn lemma_mines_stay(b: BoardView, r: int, c: int)
    requires
        b.wf(),
    ensures
        b.revealed_at(r, c).tiles.len() == b.tiles.len(),
        b.toggled(r, c).tiles.len() == b.tiles.len(),
        forall|i: int|
            0 <= i < b.tiles.len() ==> (#[trigger] b.revealed_at(r, c).tiles[i]).has_mine == b.tiles[i].has_mine
                && b.toggled(r, c).tiles[i].has_mine == b.tiles[i].has_mine,
        count_mines(b.revealed_at(r, c).tiles) == count_mines(b.tiles),
        count_mines(b.toggled(r, c).tiles) == count_mines(b.tiles),
{
    if b.in_bounds(r, c) {
        lemma_index(b.rows, b.cols, r, c);
    }
    lemma_count_same(b.revealed_at(r, c).tiles, b.tiles, mined());
    lemma_count_same(b.toggled(r, c).tiles, b.tiles, mined());
}

/// Flagging a tile and then unflagging it gives back the board as it was,
/// flag count included; each toggle moves the mines left to find by one.
pub proof fn lemma_flag_toggle_twice(b: BoardView, r: int, c: int)
    requires
        b.wf(),
    ensures
        b.toggled(r, c).toggled(r, c) == b,
        b.in_bounds(r, c) && b.tile(r, c).state == TileState::Hidden ==> b.toggled(r, c).remaining_mines()
            == b.remaining_mines() - 1,
        b.in_bounds(r, c) && b.tile(r, c).state == TileState::Flagged ==> b.toggled(r, c).remaining_mines()
            == b.remaining_mines() + 1,
{
    if b.in_bounds(r, c) && b.tile(r, c).state != TileState::Revealed {
        let i = r * b.cols + c;
        lemma_index(b.rows, b.cols, r, c);
        let once = b.toggled(r, c);
        assert(once.tile(r, c) == once.tiles[i]);
        assert(once.toggled(r, c).tiles =~= b.tiles);
    }
}

/// Revealing a hidden mine during play loses the game, and from then on no
/// reveal or flag changes the state or the board.
pub proof fn lemma_loss_is_final(g: GameView, r: int, c: int, r2: int, c2: int)
    requires
        g.board.wf(),
        g.state == GameState::Playing,
        g.board.in_bounds(r, c),
        g.board.tile(r, c).state == TileState::Hidden,
        g.board.tile(r, c).has_mine,
    ensures
        g.after_reveal(r, c).0 == GameState::GameOver,
        ({
            let lost = GameView { state: g.after_reveal(r, c).0, board: g.after_reveal(r, c).1, ..g };
            &&& lost.after_reveal(r2, c2) == (lost.state, lost.board)
            &&& lost.after_flag(r2, c2) == (lost.state, lost.board)
        }),
{
}

/// A point inside cell `(r, c)` maps back to that cell; a point left of or
/// above the grid, or past its last row or column, maps to no cell.
pub proof fn lemma_screen_to_cell_round_trip(
    ox: int,
    oy: int,
    size: int,
    rows: int,
    cols: int,
    r: int,
    c: int,
    dx: int,
    dy: int,
)
    requires
        size > 0,
        0 <= r < rows,
        0 <= c < cols,
        0 <= dx < size,
        0 <= dy < size,
    ensures
        cell_at_point(ox + c * size + dx, oy + r * size + dy, ox, oy, size, rows, cols) == Some((r, c)),
{
    assert((c * size + dx) / size == c) by (nonlinear_arith)
        requires
            size > 0,
            0 <= dx < size,
    ;
    assert((r * size + dy) / size == r) by (nonlinear_arith)
        requires
            size > 0,
            0 <= dy < size,
    ;
    assert(c * size + dx >= 0 && r * size + dy >= 0) by (nonlinear_arith)
        requires
            size > 0,
            c >= 0,
            r >= 0,
            dx >= 0,
            dy >= 0,
    ;
}

/// Points outside `[ox, ox + cols * size) × [oy, oy + rows * size)` map to no cell.
pub proof fn lemma_screen_to_cell_outside(px: int, py: int, ox: int, oy: int, size: int, rows: int, cols: int)
    requires
        px < ox || py < oy || px >= ox + cols * size || py >= oy + rows * size,
    ensures
        cell_at_point(px, py, ox, oy, size, rows, cols) is None,
{
    if size > 0 && px >= ox && py >= oy {
        if px >= ox + cols * size {
            assert((px - ox) / size >= cols) by (nonlinear_arith)
                requires
                    size > 0,
                    px - ox >= cols * size,
            ;
        } else {
            assert((py - oy) / size >= rows) by (nonlinear_arith)
                requires
                    size > 0,
                    py - oy >= rows * size,
            ;
        }
    }
}

} // verus!

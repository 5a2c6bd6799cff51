//! The minefield: mine placement, adjacency counts, reveal with flood fill,
//! chord clicks, flags and the win condition.

use vstd::prelude::*;
use rand::Rng;
use crate::tile::{Tile, TileState};

verus! {

// ---------------------------------------------------------------------------
// Geometry
// ---------------------------------------------------------------------------

/// Row step to the `k`-th of the eight neighbours of a cell.
pub open spec fn step_row(k: int) -> int {
    if k == 0 || k == 1 {
        0
    } else if k == 2 || k == 4 || k == 7 {
        1
    } else {
        -1
    }
}

/// Column step to the `k`-th of the eight neighbours of a cell.
pub open spec fn step_col(k: int) -> int {
    if k == 2 || k == 3 {
        0
    } else if k == 0 || k == 4 || k == 6 {
        1
    } else {
        -1
    }
}

pub open spec fn in_bounds(rows: int, cols: int, r: int, c: int) -> bool {
    0 <= r < rows && 0 <= c < cols
}

/// The tile at row `r`, column `c` of a row-major grid with `cols` columns.
pub open spec fn tile_at(tiles: Seq<Tile>, cols: int, r: int, c: int) -> Tile {
    tiles[r * cols + c]
}

/// `(r2, c2)` is one of the up to eight in-bounds neighbours of `(r1, c1)`.
pub open spec fn adjacent(rows: int, cols: int, r1: int, c1: int, r2: int, c2: int) -> bool {
    &&& in_bounds(rows, cols, r1, c1)
    &&& in_bounds(rows, cols, r2, c2)
    &&& !(r1 == r2 && c1 == c2)
    &&& -1 <= r2 - r1 <= 1
    &&& -1 <= c2 - c1 <= 1
}

/// Number of tiles among the neighbours `k..8` of `(r, c)` that lie in the
/// grid and satisfy `p`.
pub open spec fn count_around_from(
    tiles: Seq<Tile>,
    rows: int,
    cols: int,
    r: int,
    c: int,
    k: int,
    p: spec_fn(Tile) -> bool,
) -> nat
    decreases 8 - k,
{
    if k >= 8 {
        0
    } else {
        let nr = r + step_row(k);
        let nc = c + step_col(k);
        (if in_bounds(rows, cols, nr, nc) && p(tile_at(tiles, cols, nr, nc)) {
            1nat
        } else {
            0nat
        }) + count_around_from(tiles, rows, cols, r, c, k + 1, p)
    }
}

/// A mine that the player has accounted for: flagged, or revealed.
pub open spec fn marked_mine() -> spec_fn(Tile) -> bool {
    |t: Tile| t.has_mine && (t.state == TileState::Flagged || t.state == TileState::Revealed)
}

/// A flag on a tile without a mine.
pub open spec fn wrong_flag() -> spec_fn(Tile) -> bool {
    |t: Tile| !t.has_mine && t.state == TileState::Flagged
}

/// Number of mined cells in the in-bounds 8-neighbourhood of `(r, c)`.
pub open spec fn mines_around(tiles: Seq<Tile>, rows: int, cols: int, r: int, c: int) -> nat {
    count_around_from(tiles, rows, cols, r, c, 0, mined())
}

// ---------------------------------------------------------------------------
// Counting
// ---------------------------------------------------------------------------

pub open spec fn count_where(s: Seq<Tile>, p: spec_fn(Tile) -> bool) -> nat
    decreases s.len(),
{
    if s.len() == 0 {
        0
    } else {
        count_where(s.drop_last(), p) + (if p(s.last()) { 1nat } else { 0nat })
    }
}

pub open spec fn mined() -> spec_fn(Tile) -> bool {
    |t: Tile| t.has_mine
}

pub open spec fn mine_free() -> spec_fn(Tile) -> bool {
    |t: Tile| !t.has_mine
}

pub open spec fn flagged() -> spec_fn(Tile) -> bool {
    |t: Tile| t.state == TileState::Flagged
}

pub open spec fn count_mines(s: Seq<Tile>) -> nat {
    count_where(s, mined())
}

pub open spec fn count_free(s: Seq<Tile>) -> nat {
    count_where(s, mine_free())
}

pub open spec fn count_flagged(s: Seq<Tile>) -> nat {
    count_where(s, flagged())
}

/// A tile that a flood fill may open: hidden and without a mine.
pub open spec fn floodable(t: Tile) -> bool {
    t.state == TileState::Hidden && !t.has_mine
}

pub open spec fn unopened() -> spec_fn(Tile) -> bool {
    |t: Tile| floodable(t)
}

pub open spec fn count_floodable(s: Seq<Tile>) -> nat {
    count_where(s, unopened())
}

proof fn lemma_count_update(s: Seq<Tile>, p: spec_fn(Tile) -> bool, i: int, t: Tile)
    requires
        0 <= i < s.len(),
    ensures
        count_where(s.update(i, t), p) + (if p(s[i]) { 1int } else { 0int })
            == count_where(s, p) + (if p(t) { 1int } else { 0int }),
    decreases s.len(),
{
    if i == s.len() - 1 {
        assert(s.update(i, t).drop_last() =~= s.drop_last());
    } else {
        lemma_count_update(s.drop_last(), p, i, t);
        assert(s.update(i, t).drop_last() =~= s.drop_last().update(i, t));
    }
}

proof fn lemma_count_take(s: Seq<Tile>, p: spec_fn(Tile) -> bool, i: int)
    requires
        0 <= i < s.len(),
    ensures
        count_where(s.take(i + 1), p) == count_where(s.take(i), p) + (if p(s[i]) { 1nat } else { 0nat }),
{
    assert(s.take(i + 1).drop_last() =~= s.take(i));
}

proof fn lemma_count_all_false(s: Seq<Tile>, p: spec_fn(Tile) -> bool)
    requires
        forall|i: int| 0 <= i < s.len() ==> !p(#[trigger] s[i]),
    ensures
        count_where(s, p) == 0,
    decreases s.len(),
{
    if s.len() > 0 {
        lemma_count_all_false(s.drop_last(), p);
    }
}

pub proof fn lemma_count_same(a: Seq<Tile>, b: Seq<Tile>, p: spec_fn(Tile) -> bool)
    requires
        a.len() == b.len(),
        forall|i: int| 0 <= i < a.len() ==> p(#[trigger] a[i]) == p(b[i]),
    ensures
        count_where(a, p) == count_where(b, p),
    decreases a.len(),
{
    if a.len() > 0 {
        lemma_count_same(a.drop_last(), b.drop_last(), p);
    }
}

proof fn lemma_count_le_len(s: Seq<Tile>, p: spec_fn(Tile) -> bool)
    ensures
        count_where(s, p) <= s.len(),
    decreases s.len(),
{
    if s.len() > 0 {
        lemma_count_le_len(s.drop_last(), p);
    }
}

proof fn lemma_free_and_mines(s: Seq<Tile>)
    ensures
        count_free(s) + count_mines(s) == s.len(),
    decreases s.len(),
{
    if s.len() > 0 {
        lemma_free_and_mines(s.drop_last());
    }
}

// ---------------------------------------------------------------------------
// Index arithmetic
// ---------------------------------------------------------------------------

/// The cell at `(r, c)` of a well-formed board stands at `r * cols + c`.
pub proof fn lemma_index_in_grid(b: BoardView, r: int, c: int)
    requires
        b.wf(),
        b.in_bounds(r, c),
    ensures
        0 <= r * b.cols + c < b.tiles.len(),
        b.tile(r, c) == b.tiles[r * b.cols + c],
{
    lemma_index(b.rows, b.cols, r, c);
}

pub proof fn lemma_index(rows: int, cols: int, r: int, c: int)
    requires
        in_bounds(rows, cols, r, c),
    ensures
        0 <= r * cols + c < rows * cols,
{
    assert(0 <= r * cols + c < rows * cols) by (nonlinear_arith)
        requires
            0 <= r < rows,
            0 <= c < cols,
    ;
}

pub proof fn lemma_index_injective(rows: int, cols: int, r1: int, c1: int, r2: int, c2: int)
    requires
        in_bounds(rows, cols, r1, c1),
        in_bounds(rows, cols, r2, c2),
        r1 * cols + c1 == r2 * cols + c2,
    ensures
        r1 == r2 && c1 == c2,
{
    if r1 < r2 {
        assert(r1 * cols + c1 < r2 * cols) by (nonlinear_arith)
            requires
                r1 < r2,
                0 <= c1 < cols,
        ;
    } else if r2 < r1 {
        assert(r2 * cols + c2 < r1 * cols) by (nonlinear_arith)
            requires
                r2 < r1,
                0 <= c2 < cols,
        ;
    }
}

/// Every index of the grid names the cell at row `i / cols`, column `i % cols`.
pub proof fn lemma_index_split(rows: int, cols: int, i: int)
    requires
        0 <= i < rows * cols,
        cols > 0,
    ensures
        in_bounds(rows, cols, i / cols, i % cols),
        (i / cols) * cols + i % cols == i,
{
    let q = i / cols;
    let m = i % cols;
    assert(q * cols + m == i && 0 <= m < cols) by (nonlinear_arith)
        requires
            cols > 0,
            q == i / cols,
            m == i % cols,
    ;
    assert(0 <= q < rows) by (nonlinear_arith)
        requires
            q * cols + m == i,
            0 <= m < cols,
            0 <= i < rows * cols,
            cols > 0,
    ;
}


// ---------------------------------------------------------------------------
// Walking the grid
// ---------------------------------------------------------------------------

/// The `k`-th neighbour of `(r, c)`, if it lies in the grid.
fn neighbour(rows: usize, cols: usize, r: usize, c: usize, k: usize) -> (res: Option<(usize, usize)>)
    requires
        k < 8,
        r < rows,
        c < cols,
    ensures
        match res {
            Some((nr, nc)) => {
                &&& in_bounds(rows as int, cols as int, r + step_row(k as int), c + step_col(k as int))
                &&& nr == r + step_row(k as int)
                &&& nc == c + step_col(k as int)
            },
            None => !in_bounds(rows as int, cols as int, r + step_row(k as int), c + step_col(k as int)),
        },
{
    let up_down: usize = if k == 0 || k == 1 {
        1
    } else if k == 2 || k == 4 || k == 7 {
        2
    } else {
        0
    };
    let left_right: usize = if k == 2 || k == 3 {
        1
    } else if k == 0 || k == 4 || k == 6 {
        2
    } else {
        0
    };
    let nr = if up_down == 0 {
        if r == 0 {
            return None;
        }
        r - 1
    } else if up_down == 1 {
        r
    } else {
        if r + 1 >= rows {
            return None;
        }
        r + 1
    };
    let nc = if left_right == 0 {
        if c == 0 {
            return None;
        }
        c - 1
    } else if left_right == 1 {
        c
    } else {
        if c + 1 >= cols {
            return None;
        }
        c + 1
    };
    Some((nr, nc))
}

/// Every in-bounds neighbour of a cell is reached by one of the eight steps.
pub proof fn lemma_steps_cover(rows: int, cols: int, r1: int, c1: int, r2: int, c2: int) -> (k: int)
    requires
        adjacent(rows, cols, r1, c1, r2, c2),
    ensures
        0 <= k < 8,
        r2 == r1 + step_row(k),
        c2 == c1 + step_col(k),
{
    let dr = r2 - r1;
    let dc = c2 - c1;
    if dr == 0 && dc == 1 {
        0
    } else if dr == 0 && dc == -1 {
        1
    } else if dr == 1 && dc == 0 {
        2
    } else if dr == -1 && dc == 0 {
        3
    } else if dr == 1 && dc == 1 {
        4
    } else if dr == -1 && dc == -1 {
        5
    } else if dr == -1 && dc == 1 {
        6
    } else {
        7
    }
}

/// Each of the eight steps from an in-bounds cell leads to a neighbour or off the grid.
pub proof fn lemma_step_adjacent(rows: int, cols: int, r: int, c: int, k: int)
    requires
        0 <= k < 8,
        in_bounds(rows, cols, r, c),
        in_bounds(rows, cols, r + step_row(k), c + step_col(k)),
    ensures
        adjacent(rows, cols, r, c, r + step_row(k), c + step_col(k)),
{
}

/// Cell counts depend on where the mines are, and on nothing else.
proof fn lemma_mines_around_same(a: Seq<Tile>, b: Seq<Tile>, rows: int, cols: int, r: int, c: int, k: int)
    requires
        a.len() == b.len(),
        a.len() == rows * cols,
        forall|i: int| 0 <= i < a.len() ==> (#[trigger] a[i]).has_mine == b[i].has_mine,
    ensures
        count_around_from(a, rows, cols, r, c, k, mined()) == count_around_from(b, rows, cols, r, c, k, mined()),
    decreases 8 - k,
{
    if k < 8 {
        let nr = r + step_row(k);
        let nc = c + step_col(k);
        if in_bounds(rows, cols, nr, nc) {
            lemma_index(rows, cols, nr, nc);
            assert(a[nr * cols + nc].has_mine == b[nr * cols + nc].has_mine);
        }
        lemma_mines_around_same(a, b, rows, cols, r, c, k + 1);
    }
}

/// Number of mines around `(r, c)`, counted over the eight neighbours.
fn count_mines_around(tiles: &Vec<Tile>, rows: usize, cols: usize, r: usize, c: usize) -> (n: i32)
    requires
        tiles@.len() == rows * cols,
        rows * cols <= usize::MAX,
        r < rows,
        c < cols,
    ensures
        n == mines_around(tiles@, rows as int, cols as int, r as int, c as int),
        0 <= n <= 8,
{
    let mut n: i32 = 0;
    let mut k: usize = 0;
    while k < 8
        invariant
            k <= 8,
            0 <= n <= k,
            tiles@.len() == rows * cols,
            rows * cols <= usize::MAX,
            r < rows,
            c < cols,
            n + count_around_from(tiles@, rows as int, cols as int, r as int, c as int, k as int, mined())
                == mines_around(tiles@, rows as int, cols as int, r as int, c as int),
        decreases 8 - k,
    {
        match neighbour(rows, cols, r, c, k) {
            Some((nr, nc)) => {
                proof {
                    lemma_index(rows as int, cols as int, nr as int, nc as int);
                }
                if tiles[nr * cols + nc].has_mine {
                    n = n + 1;
                }
            },
            None => {},
        }
        k = k + 1;
    }
    n
}

/// Every cell's count agrees with the mines around it.
pub open spec fn counts_match(tiles: Seq<Tile>, rows: int, cols: int) -> bool {
    forall|r: int, c: int|
        in_bounds(rows, cols, r, c) ==> (#[trigger] tile_at(tiles, cols, r, c)).num_mines_around
            == mines_around(tiles, rows, cols, r, c)
}

/// Sets every cell's count from the mines around it.
fn update_mines_count(tiles: &mut Vec<Tile>, rows: usize, cols: usize)
    requires
        old(tiles)@.len() == rows * cols,
        rows * cols <= usize::MAX,
    ensures
        final(tiles)@.len() == old(tiles)@.len(),
        forall|i: int|
            0 <= i < old(tiles)@.len() ==> (#[trigger] final(tiles)@[i]).has_mine == old(tiles)@[i].has_mine
                && final(tiles)@[i].state == old(tiles)@[i].state,
        counts_match(final(tiles)@, rows as int, cols as int),
{
    let ghost orig = tiles@;
    let mut r: usize = 0;
    while r < rows
        invariant
            r <= rows,
            tiles@.len() == orig.len(),
            orig.len() == rows * cols,
            rows * cols <= usize::MAX,
            forall|i: int|
                0 <= i < orig.len() ==> (#[trigger] tiles@[i]).has_mine == orig[i].has_mine
                    && tiles@[i].state == orig[i].state,
            forall|r2: int, c2: int|
                in_bounds(rows as int, cols as int, r2, c2) && r2 < r ==> (#[trigger] tile_at(
                    tiles@,
                    cols as int,
                    r2,
                    c2,
                )).num_mines_around == mines_around(orig, rows as int, cols as int, r2, c2),
        decreases rows - r,
    {
        let mut c: usize = 0;
        while c < cols
            invariant
                r < rows,
                c <= cols,
                tiles@.len() == orig.len(),
                orig.len() == rows * cols,
                rows * cols <= usize::MAX,
                forall|i: int|
                    0 <= i < orig.len() ==> (#[trigger] tiles@[i]).has_mine == orig[i].has_mine
                        && tiles@[i].state == orig[i].state,
                forall|r2: int, c2: int|
                    in_bounds(rows as int, cols as int, r2, c2) && (r2 < r || (r2 == r && c2 < c))
                        ==> (#[trigger] tile_at(tiles@, cols as int, r2, c2)).num_mines_around
                        == mines_around(orig, rows as int, cols as int, r2, c2),
            decreases cols - c,
        {
            let n = count_mines_around(tiles, rows, cols, r, c);
            proof {
                lemma_mines_around_same(tiles@, orig, rows as int, cols as int, r as int, c as int, 0);
                lemma_index(rows as int, cols as int, r as int, c as int);
            }
            let i = r * cols + c;
            let ghost prev = tiles@;
            let mut t = tiles[i];
            t.update_num_mines_around(n);
            tiles.set(i, t);
            proof {
                assert forall|r2: int, c2: int|
                    in_bounds(rows as int, cols as int, r2, c2) && (r2 < r || (r2 == r && c2 < c + 1))
                        implies (#[trigger] tile_at(tiles@, cols as int, r2, c2)).num_mines_around
                        == mines_around(orig, rows as int, cols as int, r2, c2) by {
                    if r2 != r || c2 != c {
                        assert(tile_at(prev, cols as int, r2, c2).num_mines_around
                            == mines_around(orig, rows as int, cols as int, r2, c2));
                        lemma_index(rows as int, cols as int, r2, c2);
                        if r2 * cols + c2 == i {
                            lemma_index_injective(rows as int, cols as int, r2, c2, r as int, c as int);
                        }
                    }
                }
            }
            c = c + 1;
        }
        r = r + 1;
    }
    proof {
        assert forall|r2: int, c2: int| in_bounds(rows as int, cols as int, r2, c2) implies
            (#[trigger] tile_at(tiles@, cols as int, r2, c2)).num_mines_around
                == mines_around(tiles@, rows as int, cols as int, r2, c2) by {
            lemma_mines_around_same(tiles@, orig, rows as int, cols as int, r2, c2, 0);
        }
    }
}


// ---------------------------------------------------------------------------
// Mine placement
// ---------------------------------------------------------------------------


/// Index of the `rank`-th cell (counting from zero, row-major) without a mine.
pub open spec fn nth_free(s: Seq<Tile>, rank: int) -> int {
    choose|i: int| 0 <= i < s.len() && !s[i].has_mine && count_free(s.take(i)) == rank
}

/// The tiles with a mine put on the `rank`-th cell that has none.
pub open spec fn mine_on_nth_free(s: Seq<Tile>, rank: int) -> Seq<Tile> {
    s.update(nth_free(s, rank), Tile { has_mine: true, ..s[nth_free(s, rank)] })
}

/// The tiles after a mine is put, for each entry of `ranks` in turn, on the
/// cell of that rank among those that have none yet.
pub open spec fn mines_by_ranks(s: Seq<Tile>, ranks: Seq<usize>) -> Seq<Tile>
    decreases ranks.len(),
{
    if ranks.len() == 0 {
        s
    } else {
        mine_on_nth_free(mines_by_ranks(s, ranks.drop_last()), ranks.last() as int)
    }
}

/// `n` hidden tiles without mines.
pub open spec fn blank_grid(n: int) -> Seq<Tile> {
    Seq::new(n as nat, |i: int| Tile::blank())
}

proof fn lemma_count_take_mono(s: Seq<Tile>, p: spec_fn(Tile) -> bool, a: int, b: int)
    requires
        0 <= a <= b <= s.len(),
    ensures
        count_where(s.take(a), p) <= count_where(s.take(b), p),
    decreases b - a,
{
    if a < b {
        lemma_count_take(s, p, b - 1);
        lemma_count_take_mono(s, p, a, b - 1);
    }
}

/// Only one cell has a given rank among those without a mine.
proof fn lemma_nth_free_unique(s: Seq<Tile>, rank: int, i: int)
    requires
        0 <= i < s.len(),
        !s[i].has_mine,
        count_free(s.take(i)) == rank,
    ensures
        nth_free(s, rank) == i,
{
    let j = nth_free(s, rank);
    if j < i {
        lemma_count_take(s, mine_free(), j);
        lemma_count_take_mono(s, mine_free(), j + 1, i);
    } else if i < j {
        lemma_count_take(s, mine_free(), i);
        lemma_count_take_mono(s, mine_free(), i + 1, j);
    }
}

/// Puts a mine on the `rank`-th cell (counting from zero, row-major) among
/// those that have none yet.
fn place_mine_by_rank(tiles: &mut Vec<Tile>, rank: usize)
    requires
        rank < count_free(old(tiles)@),
    ensures
        final(tiles)@.len() == old(tiles)@.len(),
        count_mines(final(tiles)@) == count_mines(old(tiles)@) + 1,
        final(tiles)@ == mine_on_nth_free(old(tiles)@, rank as int),
        forall|j: int|
            0 <= j < old(tiles)@.len() ==> (#[trigger] final(tiles)@[j]).state == old(tiles)@[j].state,
{
    let ghost orig = tiles@;
    let mut seen: usize = 0;
    let mut i: usize = 0;
    let n = tiles.len();
    while i < n
        invariant
            n == tiles@.len(),
            tiles@ == orig,
            orig == old(tiles)@,
            i <= n,
            seen == count_free(orig.take(i as int)),
            seen <= rank,
            rank < count_free(orig),
        decreases n - i,
    {
        proof {
            lemma_count_take(orig, mine_free(), i as int);
        }
        let t = tiles[i];
        if !t.has_mine {
            if seen == rank {
                let placed = Tile { has_mine: true, ..t };
                tiles.set(i, placed);
                proof {
                    lemma_count_update(orig, mined(), i as int, placed);
                    lemma_nth_free_unique(orig, rank as int, i as int);
                }
                return;
            }
            seen = seen + 1;
        }
        i = i + 1;
    }
    proof {
        assert(orig.take(n as int) =~= orig);
    }
}

/// A grid of hidden tiles without mines.
fn blank_tiles(n: usize) -> (tiles: Vec<Tile>)
    ensures
        tiles@.len() == n,
        forall|i: int| 0 <= i < n ==> #[trigger] tiles@[i] == Tile::blank(),
{
    let mut tiles: Vec<Tile> = Vec::new();
    let mut i: usize = 0;
    while i < n
        invariant
            i <= n,
            tiles@.len() == i,
            forall|j: int| 0 <= j < i ==> #[trigger] tiles@[j] == Tile::blank(),
        decreases n - i,
    {
        tiles.push(Tile::default());
        i = i + 1;
    }
    tiles
}

/// rand's `ThreadRng`, carried through without looking inside.
#[verifier::external_type_specification]
#[verifier::external_body]
pub struct ExThreadRng(rand::rngs::ThreadRng);

/// Relies on rand::thread_rng: a handle to the thread's random generator.
pub assume_specification[ rand::thread_rng ]() -> rand::rngs::ThreadRng;

/// Relies on rand's Rng::gen_range: a value drawn from the half-open range
/// `0..bound` (it panics only on an empty range).
#[verifier::external_body]
fn random_below(rng: &mut rand::rngs::ThreadRng, bound: usize) -> (r: usize)
    requires
        0 < bound,
    ensures
        r < bound,
{
    rng.gen_range(0..bound)
}


/// Changing one entry of the grid changes only the tile at that place.
proof fn lemma_tile_at_update(tiles: Seq<Tile>, rows: int, cols: int, r: int, c: int, i: int, v: Tile)
    requires
        tiles.len() == rows * cols,
        in_bounds(rows, cols, r, c),
        0 <= i < tiles.len(),
    ensures
        tile_at(tiles.update(i, v), cols, r, c) == if r * cols + c == i {
            v
        } else {
            tile_at(tiles, cols, r, c)
        },
{
    lemma_index(rows, cols, r, c);
}

/// A route of the flood goes on to any unopened neighbour of its last cell,
/// when the flood spreads from there.
proof fn lemma_flood_extend(m: BoardView, sr: int, sc: int, path: Seq<(int, int)>, r: int, c: int)
    requires
        m.is_flood_path(sr, sc, path),
        m.spreads(sr, sc, path.last().0, path.last().1),
        adjacent(m.rows, m.cols, path.last().0, path.last().1, r, c),
        floodable(m.tile(r, c)),
    ensures
        m.is_flood_path(sr, sc, path.push((r, c))),
        m.reaches(sr, sc, r, c),
{
    let extended = path.push((r, c));
    assert forall|j: int| 0 < j < extended.len() implies floodable(m.tile((#[trigger] extended[j]).0, extended[j].1)) && adjacent(
        m.rows,
        m.cols,
        extended[j - 1].0,
        extended[j - 1].1,
        extended[j].0,
        extended[j].1,
    ) by {
        if j < path.len() {
            assert(extended[j] == path[j]);
            assert(extended[j - 1] == path[j - 1]);
        }
    }
    assert forall|j: int| 0 <= j < extended.len() - 1 implies m.spreads(sr, sc, (#[trigger] extended[j]).0, extended[j].1) by {
        if j < path.len() - 1 {
            assert(extended[j] == path[j]);
        }
    }
    assert(extended.last() == (r, c));
}

/// What the flood loop knows when its work list is exhausted: every cell on a
/// route of the flood is the start or was opened.
proof fn lemma_flood_complete(m: BoardView, t: Seq<Tile>, q: Seq<(usize, usize)>, sr: int, sc: int, path: Seq<(int, int)>)
    requires
        m.tiles.len() == m.rows * m.cols,
        m.rows <= usize::MAX,
        m.cols <= usize::MAX,
        t.len() == m.tiles.len(),
        q.len() >= 1,
        q[0].0 == sr,
        q[0].1 == sc,
        forall|r2: int, c2: int|
            m.in_bounds(r2, c2) && #[trigger] tile_at(t, m.cols, r2, c2) != m.tile(r2, c2) && m.tile(
                r2,
                c2,
            ).num_mines_around == 0 ==> exists|j: int| 0 <= j < q.len() && #[trigger] q[j] == (r2 as usize, c2 as usize),
        forall|j: int, r2: int, c2: int|
            #![trigger q[j], tile_at(t, m.cols, r2, c2)]
            0 <= j < q.len() && adjacent(m.rows, m.cols, q[j].0 as int, q[j].1 as int, r2, c2)
                ==> !floodable(tile_at(t, m.cols, r2, c2)),
        m.is_flood_path(sr, sc, path),
    ensures
        (path.last().0 == sr && path.last().1 == sc) || (floodable(m.tile(path.last().0, path.last().1))
            && tile_at(t, m.cols, path.last().0, path.last().1) != m.tile(path.last().0, path.last().1)),
    decreases path.len(),
{
    if path.len() >= 2 {
        let prefix = path.drop_last();
        assert forall|j: int| 0 < j < prefix.len() implies floodable(m.tile((#[trigger] prefix[j]).0, prefix[j].1))
            && adjacent(m.rows, m.cols, prefix[j - 1].0, prefix[j - 1].1, prefix[j].0, prefix[j].1) by {
            assert(prefix[j] == path[j]);
            assert(prefix[j - 1] == path[j - 1]);
        }
        assert forall|j: int| 0 <= j < prefix.len() - 1 implies m.spreads(sr, sc, (#[trigger] prefix[j]).0, prefix[j].1) by {
            assert(prefix[j] == path[j]);
        }
        lemma_flood_complete(m, t, q, sr, sc, prefix);
        let n = path.len() - 1;
        let (pr, pc) = path[n - 1];
        let (r, c) = path[n];
        assert(prefix.last() == path[n - 1]);
        assert(m.spreads(sr, sc, pr, pc));
        assert(floodable(m.tile(r, c)) && adjacent(m.rows, m.cols, pr, pc, r, c));
        if pr == sr && pc == sc {
            assert(adjacent(m.rows, m.cols, q[0].0 as int, q[0].1 as int, r, c));
            assert(!floodable(tile_at(t, m.cols, r, c)));
        } else {
            assert(tile_at(t, m.cols, pr, pc) != m.tile(pr, pc));
            let j = choose|j: int| 0 <= j < q.len() && #[trigger] q[j] == (pr as usize, pc as usize);
            assert(adjacent(m.rows, m.cols, q[j].0 as int, q[j].1 as int, r, c));
            assert(!floodable(tile_at(t, m.cols, r, c)));
        }
    }
}

// ---------------------------------------------------------------------------
// The board
// ---------------------------------------------------------------------------

/// What a board holds, as mathematical values.
pub struct BoardView {
    pub rows: int,
    pub cols: int,
    /// Row-major: the tile at row `r`, column `c` is `tiles[r * cols + c]`.
    pub tiles: Seq<Tile>,
    pub total_mines: int,
    pub flagged_count: int,
}

/// The grid of tiles, with the number of mines placed and of flags set.
pub struct Board {
    rows: usize,
    cols: usize,
    tiles: Vec<Tile>,
    initial_mines_count: usize,
    marked_mines_count: usize,
}

impl View for Board {
    type V = BoardView;

    closed spec fn view(&self) -> BoardView {
        BoardView {
            rows: self.rows as int,
            cols: self.cols as int,
            tiles: self.tiles@,
            total_mines: self.initial_mines_count as int,
            flagged_count: self.marked_mines_count as int,
        }
    }
}

impl BoardView {
    pub open spec fn wf(self) -> bool {
        &&& self.wf_except_flags()
        &&& self.flagged_count == count_flagged(self.tiles)
    }

    /// Everything `wf` asks but that the flag count matches the flags.
    pub open spec fn wf_except_flags(self) -> bool {
        &&& 0 <= self.rows
        &&& 0 <= self.cols
        &&& self.rows * self.cols <= i32::MAX
        &&& self.tiles.len() == self.rows * self.cols
        &&& counts_match(self.tiles, self.rows, self.cols)
        &&& self.total_mines == count_mines(self.tiles)
    }

    pub open spec fn in_bounds(self, r: int, c: int) -> bool {
        in_bounds(self.rows, self.cols, r, c)
    }

    pub open spec fn tile(self, r: int, c: int) -> Tile {
        tile_at(self.tiles, self.cols, r, c)
    }

    /// The flood started at `(sr, sc)` goes on from `(r, c)`: it is the
    /// starting cell, or an unopened tile without mines around it.
    pub open spec fn spreads(self, sr: int, sc: int, r: int, c: int) -> bool {
        (r == sr && c == sc) || (floodable(self.tile(r, c)) && self.tile(r, c).num_mines_around == 0)
    }

    /// `path` is a route of the flood from `(sr, sc)`: it starts there, each
    /// later cell is an unopened neighbour of the one before it, and the flood
    /// spreads from every cell of it but the last.
    pub open spec fn is_flood_path(self, sr: int, sc: int, path: Seq<(int, int)>) -> bool {
        &&& path.len() >= 1
        &&& path[0] == (sr, sc)
        &&& forall|j: int|
            0 < j < path.len() ==> floodable(self.tile((#[trigger] path[j]).0, path[j].1)) && adjacent(
                self.rows,
                self.cols,
                path[j - 1].0,
                path[j - 1].1,
                path[j].0,
                path[j].1,
            )
        &&& forall|j: int| 0 <= j < path.len() - 1 ==> self.spreads(sr, sc, (#[trigger] path[j]).0, path[j].1)
    }

    /// The flood from `(sr, sc)` reaches `(r, c)`.
    pub open spec fn reaches(self, sr: int, sc: int, r: int, c: int) -> bool {
        exists|path: Seq<(int, int)>| #[trigger] self.is_flood_path(sr, sc, path) && path.last() == (r, c)
    }

    /// The board after a flood from `(sr, sc)`: every unopened tile that the
    /// flood reaches is revealed, and nothing else changes. This is the
    /// connected region of unopened tiles without mines around them that
    /// touches the start, together with its numbered border.
    pub open spec fn flooded(self, sr: int, sc: int) -> BoardView {
        BoardView {
            tiles: Seq::new(
                self.tiles.len(),
                |i: int|
                    if floodable(self.tiles[i]) && self.reaches(sr, sc, i / self.cols, i % self.cols) {
                        self.tiles[i].with_state(TileState::Revealed)
                    } else {
                        self.tiles[i]
                    },
            ),
            ..self
        }
    }

    /// The same board with the tile at `(r, c)` in state `state`.
    pub open spec fn set_state(self, r: int, c: int, state: TileState) -> BoardView {
        BoardView { tiles: self.tiles.update(r * self.cols + c, self.tile(r, c).with_state(state)), ..self }
    }

    /// A revealed numbered cell whose mines are all accounted for (flagged or
    /// revealed), with no flag on a mine-free neighbour.
    pub open spec fn cleared(self, r: int, c: int) -> bool {
        &&& !self.tile(r, c).has_mine
        &&& count_around_from(self.tiles, self.rows, self.cols, r, c, 0, wrong_flag()) == 0
        &&& count_around_from(self.tiles, self.rows, self.cols, r, c, 0, marked_mine())
            == self.tile(r, c).num_mines_around
    }

    /// Every mine is flagged and every other tile is revealed.
    pub open spec fn is_won(self) -> bool {
        forall|i: int|
            0 <= i < self.tiles.len() ==> if (#[trigger] self.tiles[i]).has_mine {
                self.tiles[i].state == TileState::Flagged
            } else {
                self.tiles[i].state == TileState::Revealed
            }
    }

    /// A click on a revealed numbered cell: when the cell is cleared, the
    /// flood opens its neighbours; otherwise nothing happens.
    pub open spec fn chorded(self, r: int, c: int) -> BoardView {
        let t = self.tile(r, c);
        if self.in_bounds(r, c) && t.state == TileState::Revealed && !t.has_mine && t.num_mines_around != 0
            && self.cleared(r, c) {
            self.flooded(r, c)
        } else {
            self
        }
    }

    /// The board after the player reveals `(r, c)`. Out of the grid, on a
    /// flag, or on a revealed mine nothing happens. A hidden tile is revealed,
    /// and when it has no mine the flood goes on from it. A revealed tile
    /// without a mine is a chord click.
    pub open spec fn revealed_at(self, r: int, c: int) -> BoardView {
        let t = self.tile(r, c);
        if !self.in_bounds(r, c) {
            self
        } else if t.state == TileState::Hidden {
            let opened = self.set_state(r, c, TileState::Revealed);
            if t.has_mine {
                opened
            } else {
                opened.flooded(r, c)
            }
        } else if t.state == TileState::Revealed && !t.has_mine {
            self.chorded(r, c)
        } else {
            self
        }
    }

    /// The board after the player toggles the flag on `(r, c)`: out of the
    /// grid or on a revealed tile nothing happens; otherwise a hidden tile
    /// becomes flagged and a flagged one hidden, and the flag count follows.
    pub open spec fn toggled(self, r: int, c: int) -> BoardView {
        let t = self.tile(r, c);
        if !self.in_bounds(r, c) || t.state == TileState::Revealed {
            self
        } else if t.state == TileState::Flagged {
            BoardView { flagged_count: self.flagged_count - 1, ..self.set_state(r, c, TileState::Hidden) }
        } else {
            BoardView { flagged_count: self.flagged_count + 1, ..self.set_state(r, c, TileState::Flagged) }
        }
    }

    /// Mines left to find, as shown to the player: may go below zero when
    /// more tiles are flagged than there are mines.
    pub open spec fn remaining_mines(self) -> int {
        self.total_mines - self.flagged_count
    }
}


/// Changing the state of one tile keeps the counts and the mines, and moves
/// the flag count by what the change does to flags.
pub proof fn lemma_set_state(m: BoardView, r: int, c: int, state: TileState)
    requires
        m.wf(),
        m.in_bounds(r, c),
    ensures
        m.set_state(r, c, state).wf_except_flags(),
        count_flagged(m.set_state(r, c, state).tiles) + (if m.tile(r, c).state == TileState::Flagged {
            1int
        } else {
            0int
        }) == count_flagged(m.tiles) + (if state == TileState::Flagged { 1int } else { 0int }),
        m.set_state(r, c, state).tile(r, c) == m.tile(r, c).with_state(state),
{
    let n = m.set_state(r, c, state);
    let i = r * m.cols + c;
    lemma_index(m.rows, m.cols, r, c);
    assert forall|j: int| 0 <= j < m.tiles.len() implies (#[trigger] n.tiles[j]).has_mine == m.tiles[j].has_mine
        && n.tiles[j].num_mines_around == m.tiles[j].num_mines_around by {}
    lemma_count_same(n.tiles, m.tiles, mined());
    lemma_count_update(m.tiles, flagged(), i, m.tile(r, c).with_state(state));
    assert forall|r2: int, c2: int| in_bounds(m.rows, m.cols, r2, c2) implies
        (#[trigger] tile_at(n.tiles, m.cols, r2, c2)).num_mines_around == mines_around(n.tiles, m.rows, m.cols, r2, c2) by {
        lemma_index(m.rows, m.cols, r2, c2);
        lemma_mines_around_same(n.tiles, m.tiles, m.rows, m.cols, r2, c2, 0);
        assert(tile_at(m.tiles, m.cols, r2, c2).num_mines_around == mines_around(m.tiles, m.rows, m.cols, r2, c2));
    }
}

impl Board {
    /// A board without cells.
    pub fn empty() -> (b: Board)
        ensures
            b@.wf(),
            b@.rows == 0,
            b@.cols == 0,
            b@.total_mines == 0,
            b@.flagged_count == 0,
    {
        let tiles: Vec<Tile> = Vec::new();
        proof {
            lemma_count_all_false(tiles@, mined());
        }
        Board::with_tiles(0, 0, tiles)
    }

    /// Builds a board on which the mines stand where `mines` (row-major) says.
    /// Returns `None` when `mines` does not hold one entry per cell.
    pub fn from_mines(rows: usize, cols: usize, mines: &Vec<bool>) -> (res: Option<Board>)
        ensures
            res is None <==> rows * cols != mines@.len() || rows * cols > i32::MAX,
            res matches Some(b) ==> {
                &&& b@.wf()
                &&& b@.rows == rows
                &&& b@.cols == cols
                &&& b@.flagged_count == 0
                &&& forall|i: int|
                    0 <= i < mines@.len() ==> (#[trigger] b@.tiles[i]).has_mine == mines@[i]
                        && b@.tiles[i].state == TileState::Hidden
            },
    {
        let len = mines.len();
        let n = match rows.checked_mul(cols) {
            Some(n) => n,
            None => {
                return None;
            },
        };
        if n != len || n > i32::MAX as usize {
            return None;
        }
        let mut tiles = blank_tiles(n);
        let mut i: usize = 0;
        while i < n
            invariant
                n == rows * cols,
                n == mines@.len(),
                i <= n,
                tiles@.len() == n,
                forall|j: int|
                    0 <= j < n ==> (#[trigger] tiles@[j]).state == TileState::Hidden
                        && (tiles@[j].has_mine <==> (j < i && mines@[j])),
            decreases n - i,
        {
            if mines[i] {
                let t = tiles[i];
                tiles.set(i, Tile { has_mine: true, ..t });
            }
            i = i + 1;
        }
        Some(Board::with_tiles(rows, cols, tiles))
    }

    /// Builds a board from mine choices: the `k`-th entry of `ranks` puts a
    /// mine on the `ranks[k]`-th cell (counting from zero, row-major) among
    /// those that have none yet.
    pub fn from_mine_ranks(rows: usize, cols: usize, ranks: &Vec<usize>) -> (b: Board)
        requires
            rows * cols <= i32::MAX,
            forall|k: int| 0 <= k < ranks@.len() ==> #[trigger] ranks@[k] + k < rows * cols,
        ensures
            b@.wf(),
            b@.rows == rows,
            b@.cols == cols,
            b@.total_mines == ranks@.len(),
            b@.flagged_count == 0,
            b@.tiles.len() == rows * cols,
            forall|i: int|
                0 <= i < b@.tiles.len() ==> (#[trigger] b@.tiles[i]).state == TileState::Hidden
                    && b@.tiles[i].has_mine == mines_by_ranks(blank_grid(rows * cols), ranks@)[i].has_mine,
    {
        let n = rows * cols;
        let mut tiles = blank_tiles(n);
        proof {
            lemma_count_all_false(tiles@, mined());
            assert(tiles@ =~= blank_grid(n as int));
            assert(ranks@.take(0) =~= Seq::<usize>::empty());
        }
        let mut k: usize = 0;
        while k < ranks.len()
            invariant
                n == rows * cols,
                k <= ranks@.len(),
                forall|j: int| 0 <= j < ranks@.len() ==> #[trigger] ranks@[j] + j < rows * cols,
                tiles@.len() == n,
                count_mines(tiles@) == k,
                forall|j: int| 0 <= j < n ==> (#[trigger] tiles@[j]).state == TileState::Hidden,
                tiles@ == mines_by_ranks(blank_grid(n as int), ranks@.take(k as int)),
            decreases ranks@.len() - k,
        {
            proof {
                lemma_free_and_mines(tiles@);
                assert(ranks@[k as int] + k < rows * cols);
                assert(ranks@.take(k + 1).drop_last() =~= ranks@.take(k as int));
            }
            place_mine_by_rank(&mut tiles, ranks[k]);
            k = k + 1;
        }
        proof {
            assert(ranks@.take(k as int) =~= ranks@);
        }
        Board::with_tiles(rows, cols, tiles)
    }

    /// Builds a board of `rows` by `cols` cells with `mine_count` mines, each
    /// placed on a cell drawn uniformly among those that have none yet.
    pub fn generate(rows: usize, cols: usize, mine_count: usize) -> (b: Board)
        requires
            mine_count < rows * cols,
            rows * cols <= i32::MAX,
        ensures
            b@.wf(),
            b@.rows == rows,
            b@.cols == cols,
            b@.total_mines == mine_count,
            b@.flagged_count == 0,
            forall|i: int| 0 <= i < b@.tiles.len() ==> (#[trigger] b@.tiles[i]).state == TileState::Hidden,
    {
        let n = rows * cols;
        let mut rng = rand::thread_rng();
        let mut ranks: Vec<usize> = Vec::new();
        let mut k: usize = 0;
        while k < mine_count
            invariant
                n == rows * cols,
                mine_count < n,
                k <= mine_count,
                ranks@.len() == k,
                forall|j: int| 0 <= j < k ==> #[trigger] ranks@[j] + j < n,
            decreases mine_count - k,
        {
            let r = random_below(&mut rng, n - k);
            ranks.push(r);
            k = k + 1;
        }
        Board::from_mine_ranks(rows, cols, &ranks)
    }

    pub fn rows(&self) -> (n: usize)
        ensures
            n == self@.rows,
    {
        self.rows
    }

    pub fn cols(&self) -> (n: usize)
        ensures
            n == self@.cols,
    {
        self.cols
    }

    /// Number of mines placed when the board was made.
    pub fn total_mines(&self) -> (n: usize)
        ensures
            n == self@.total_mines,
    {
        self.initial_mines_count
    }

    /// Number of flagged tiles.
    pub fn flagged_count(&self) -> (n: usize)
        ensures
            n == self@.flagged_count,
    {
        self.marked_mines_count
    }

    /// Mines placed minus flags set; below zero when there are more flags
    /// than mines.
    pub fn remaining_mine_count(&self) -> (n: i32)
        requires
            self@.wf(),
        ensures
            n == self@.remaining_mines(),
    {
        proof {
            lemma_count_le_len(self.tiles@, mined());
            lemma_count_le_len(self.tiles@, flagged());
        }
        self.initial_mines_count as i32 - self.marked_mines_count as i32
    }

    /// The tile at row `r`, column `c`.
    pub fn tile(&self, r: usize, c: usize) -> (t: Tile)
        requires
            self@.wf(),
            self@.in_bounds(r as int, c as int),
        ensures
            t == self@.tile(r as int, c as int),
    {
        proof {
            lemma_index(self@.rows, self@.cols, r as int, c as int);
        }
        self.tiles[r * self.cols + c]
    }

    /// Every mine is flagged and every other tile is revealed.
    pub fn has_won(&self) -> (won: bool)
        ensures
            won == self@.is_won(),
    {
        let n = self.tiles.len();
        let mut i: usize = 0;
        while i < n
            invariant
                n == self.tiles@.len(),
                i <= n,
                forall|j: int|
                    0 <= j < i ==> if (#[trigger] self.tiles@[j]).has_mine {
                        self.tiles@[j].state == TileState::Flagged
                    } else {
                        self.tiles@[j].state == TileState::Revealed
                    },
            decreases n - i,
        {
            let t = self.tiles[i];
            let ok = if t.has_mine {
                t.state == TileState::Flagged
            } else {
                t.state == TileState::Revealed
            };
            if !ok {
                return false;
            }
            i = i + 1;
        }
        true
    }

    /// Whether the revealed numbered cell at `(r, c)` has all its mines
    /// accounted for, with no flag on a mine-free neighbour.
    pub fn is_tile_cleared(&self, r: usize, c: usize) -> (cleared: bool)
        requires
            self@.wf(),
            self@.in_bounds(r as int, c as int),
        ensures
            cleared == self@.cleared(r as int, c as int),
    {
        let rows = self.rows;
        let cols = self.cols;
        let here = self.tile(r, c);
        if here.has_mine {
            return false;
        }
        let ghost tiles = self.tiles@;
        let mut marked: i32 = 0;
        let mut wrong: i32 = 0;
        let mut k: usize = 0;
        while k < 8
            invariant
                self@.wf(),
                tiles == self.tiles@,
                rows == self@.rows,
                cols == self@.cols,
                r < rows,
                c < cols,
                k <= 8,
                0 <= marked <= k,
                0 <= wrong <= k,
                marked + count_around_from(tiles, rows as int, cols as int, r as int, c as int, k as int, marked_mine())
                    == count_around_from(tiles, rows as int, cols as int, r as int, c as int, 0, marked_mine()),
                wrong + count_around_from(tiles, rows as int, cols as int, r as int, c as int, k as int, wrong_flag())
                    == count_around_from(tiles, rows as int, cols as int, r as int, c as int, 0, wrong_flag()),
            decreases 8 - k,
        {
            match neighbour(rows, cols, r, c, k) {
                Some((nr, nc)) => {
                    let t = self.tile(nr, nc);
                    if t.has_mine && (t.state == TileState::Flagged || t.state == TileState::Revealed) {
                        marked = marked + 1;
                    }
                    if !t.has_mine && t.state == TileState::Flagged {
                        wrong = wrong + 1;
                    }
                },
                None => {},
            }
            k = k + 1;
        }
        wrong == 0 && marked == here.num_mines_around
    }

    /// A click on a revealed numbered cell: when it is cleared, its hidden
    /// neighbours are opened by a flood from it.
    pub fn click_on_shown_tile(&mut self, r: usize, c: usize)
        requires
            old(self)@.wf(),
            old(self)@.in_bounds(r as int, c as int),
        ensures
            final(self)@ == old(self)@.chorded(r as int, c as int),
            final(self)@.wf(),
    {
        let t = self.tile(r, c);
        if t.state != TileState::Revealed || t.has_mine || t.num_mines_around == 0 || !self.is_tile_cleared(r, c) {
            return;
        }
        self.clear_empty_neighbours(r, c);
    }

    /// The player reveals `(r, c)`; returns whether a hidden mine went off.
    pub fn reveal_tile(&mut self, r: usize, c: usize) -> (exploded: bool)
        requires
            old(self)@.wf(),
        ensures
            final(self)@ == old(self)@.revealed_at(r as int, c as int),
            final(self)@.wf(),
            exploded == (old(self)@.in_bounds(r as int, c as int) && old(self)@.tile(r as int, c as int).state
                == TileState::Hidden && old(self)@.tile(r as int, c as int).has_mine),
    {
        if r >= self.rows || c >= self.cols {
            return false;
        }
        let t = self.tile(r, c);
        if t.state == TileState::Hidden {
            proof {
                lemma_set_state(self@, r as int, c as int, TileState::Revealed);
                lemma_index(self@.rows, self@.cols, r as int, c as int);
            }
            self.tiles.set(r * self.cols + c, Tile { state: TileState::Revealed, ..t });
            if t.has_mine {
                return true;
            }
            self.clear_empty_neighbours(r, c);
            false
        } else if t.state == TileState::Revealed && !t.has_mine {
            self.click_on_shown_tile(r, c);
            false
        } else {
            false
        }
    }

    /// The player toggles the flag on `(r, c)`.
    pub fn toggle_flag(&mut self, r: usize, c: usize)
        requires
            old(self)@.wf(),
        ensures
            final(self)@ == old(self)@.toggled(r as int, c as int),
            final(self)@.wf(),
    {
        if r >= self.rows || c >= self.cols {
            return;
        }
        let t = self.tile(r, c);
        if t.state == TileState::Revealed {
            return;
        }
        proof {
            lemma_index(self@.rows, self@.cols, r as int, c as int);
        }
        if t.state == TileState::Flagged {
            proof {
                lemma_set_state(self@, r as int, c as int, TileState::Hidden);
            }
            self.tiles.set(r * self.cols + c, Tile { state: TileState::Hidden, ..t });
            self.marked_mines_count = self.marked_mines_count - 1;
        } else {
            proof {
                lemma_set_state(self@, r as int, c as int, TileState::Flagged);
                lemma_count_le_len(self@.set_state(r as int, c as int, TileState::Flagged).tiles, flagged());
            }
            self.tiles.set(r * self.cols + c, Tile { state: TileState::Flagged, ..t });
            self.marked_mines_count = self.marked_mines_count + 1;
        }
    }

    /// Fills in the counts and wraps the tiles; no tile is flagged yet.
    fn with_tiles(rows: usize, cols: usize, tiles: Vec<Tile>) -> (b: Board)
        requires
            tiles@.len() == rows * cols,
            rows * cols <= i32::MAX,
            forall|i: int| 0 <= i < tiles@.len() ==> (#[trigger] tiles@[i]).state == TileState::Hidden,
        ensures
            b@.wf(),
            b@.rows == rows,
            b@.cols == cols,
            b@.total_mines == count_mines(tiles@),
            b@.flagged_count == 0,
            forall|i: int|
                0 <= i < tiles@.len() ==> (#[trigger] b@.tiles[i]).state == TileState::Hidden
                    && b@.tiles[i].has_mine == tiles@[i].has_mine,
    {
        let ghost orig = tiles@;
        let mut tiles = tiles;
        update_mines_count(&mut tiles, rows, cols);
        let mut mines: usize = 0;
        let mut i: usize = 0;
        let n = tiles.len();
        while i < n
            invariant
                n == tiles@.len(),
                i <= n,
                mines == count_mines(tiles@.take(i as int)),
                mines <= i,
            decreases n - i,
        {
            proof {
                lemma_count_take(tiles@, mined(), i as int);
            }
            if tiles[i].has_mine {
                mines = mines + 1;
            }
            i = i + 1;
        }
        proof {
            assert(tiles@.take(n as int) =~= tiles@);
            lemma_count_same(tiles@, orig, mined());
            lemma_count_all_false(tiles@, flagged());
        }
        Board { rows, cols, tiles, initial_mines_count: mines, marked_mines_count: 0 }
    }

    /// Breadth-first flood from `(sr, sc)` with an explicit work list: each
    /// unopened neighbour of a cell taken from the list is revealed, and
    /// joins the list when no mine is around it.
    fn clear_empty_neighbours(&mut self, sr: usize, sc: usize)
        requires
            old(self)@.wf(),
            old(self)@.in_bounds(sr as int, sc as int),
            !floodable(old(self)@.tile(sr as int, sc as int)),
        ensures
            final(self)@ == old(self)@.flooded(sr as int, sc as int),
            final(self)@.wf(),
    {
        let ghost m = self@;
        let rows = self.rows;
        let cols = self.cols;
        let mut queue: Vec<(usize, usize)> = Vec::new();
        queue.push((sr, sc));
        let mut head: usize = 0;
        proof {
            let start = seq![(sr as int, sc as int)];
            assert(m.is_flood_path(sr as int, sc as int, start));
            assert(start.last() == (sr as int, sc as int));
        }
        while head < queue.len()
            invariant
                m == old(self)@,
                m.wf(),
                !floodable(m.tile(sr as int, sc as int)),
                rows == m.rows,
                cols == m.cols,
                self.rows == rows,
                self.cols == cols,
                self.initial_mines_count == m.total_mines,
                self.marked_mines_count == m.flagged_count,
                self.tiles@.len() == m.tiles.len(),
                forall|i: int|
                    0 <= i < m.tiles.len() ==> #[trigger] self.tiles@[i] == m.tiles[i] || (floodable(m.tiles[i])
                        && self.tiles@[i] == m.tiles[i].with_state(TileState::Revealed)),
                forall|r: int, c: int|
                    m.in_bounds(r, c) && #[trigger] tile_at(self.tiles@, cols as int, r, c) != m.tile(r, c)
                        ==> m.reaches(sr as int, sc as int, r, c),
                queue@.len() >= 1,
                queue@[0] == (sr, sc),
                head <= queue@.len(),
                forall|j: int|
                    0 <= j < queue@.len() ==> m.in_bounds((#[trigger] queue@[j]).0 as int, queue@[j].1 as int)
                        && m.spreads(sr as int, sc as int, queue@[j].0 as int, queue@[j].1 as int) && m.reaches(
                        sr as int,
                        sc as int,
                        queue@[j].0 as int,
                        queue@[j].1 as int,
                    ),
                forall|r: int, c: int|
                    m.in_bounds(r, c) && #[trigger] tile_at(self.tiles@, cols as int, r, c) != m.tile(r, c)
                        && m.tile(r, c).num_mines_around == 0 ==> exists|j: int|
                        0 <= j < queue@.len() && #[trigger] queue@[j] == (r as usize, c as usize),
                forall|j: int, r: int, c: int|
                    #![trigger queue@[j], tile_at(self.tiles@, cols as int, r, c)]
                    0 <= j < head && adjacent(rows as int, cols as int, queue@[j].0 as int, queue@[j].1 as int, r, c)
                        ==> !floodable(tile_at(self.tiles@, cols as int, r, c)),
            decreases count_floodable(self.tiles@) + queue@.len() - head,
        {
            let (r, c) = queue[head];
            head = head + 1;
            let ghost budget = count_floodable(self.tiles@) + queue@.len();
            let ghost path = choose|path: Seq<(int, int)>|
                #[trigger] m.is_flood_path(sr as int, sc as int, path) && path.last() == (r as int, c as int);
            let mut k: usize = 0;
            while k < 8
                invariant
                    m == old(self)@,
                    m.wf(),
                    !floodable(m.tile(sr as int, sc as int)),
                    rows == m.rows,
                    cols == m.cols,
                    self.rows == rows,
                    self.cols == cols,
                    self.initial_mines_count == m.total_mines,
                    self.marked_mines_count == m.flagged_count,
                    self.tiles@.len() == m.tiles.len(),
                    forall|i: int|
                        0 <= i < m.tiles.len() ==> #[trigger] self.tiles@[i] == m.tiles[i] || (floodable(
                            m.tiles[i],
                        ) && self.tiles@[i] == m.tiles[i].with_state(TileState::Revealed)),
                    forall|r: int, c: int|
                        m.in_bounds(r, c) && #[trigger] tile_at(self.tiles@, cols as int, r, c) != m.tile(r, c)
                            ==> m.reaches(sr as int, sc as int, r, c),
                    queue@.len() >= 1,
                    queue@[0] == (sr, sc),
                    1 <= head <= queue@.len(),
                    queue@[head - 1] == (r, c),
                    m.in_bounds(r as int, c as int),
                    m.spreads(sr as int, sc as int, r as int, c as int),
                    m.is_flood_path(sr as int, sc as int, path),
                    path.last() == (r as int, c as int),
                    forall|j: int|
                        0 <= j < queue@.len() ==> m.in_bounds((#[trigger] queue@[j]).0 as int, queue@[j].1 as int)
                            && m.spreads(sr as int, sc as int, queue@[j].0 as int, queue@[j].1 as int)
                            && m.reaches(sr as int, sc as int, queue@[j].0 as int, queue@[j].1 as int),
                    forall|r: int, c: int|
                        m.in_bounds(r, c) && #[trigger] tile_at(self.tiles@, cols as int, r, c) != m.tile(r, c)
                            && m.tile(r, c).num_mines_around == 0 ==> exists|j: int|
                            0 <= j < queue@.len() && #[trigger] queue@[j] == (r as usize, c as usize),
                    forall|j: int, r: int, c: int|
                        #![trigger queue@[j], tile_at(self.tiles@, cols as int, r, c)]
                        0 <= j < head - 1 && adjacent(
                            rows as int,
                            cols as int,
                            queue@[j].0 as int,
                            queue@[j].1 as int,
                            r,
                            c,
                        ) ==> !floodable(tile_at(self.tiles@, cols as int, r, c)),
                    k <= 8,
                    forall|k2: int|
                        0 <= k2 < k && in_bounds(rows as int, cols as int, r + step_row(k2), c + step_col(k2))
                            ==> !floodable(#[trigger] tile_at(self.tiles@, cols as int, r + step_row(k2), c + step_col(k2))),
                    count_floodable(self.tiles@) + queue@.len() <= budget,
                decreases 8 - k,
            {
                match neighbour(rows, cols, r, c, k) {
                    Some((nr, nc)) => {
                        proof {
                            lemma_index(rows as int, cols as int, nr as int, nc as int);
                        }
                        let i = nr * cols + nc;
                        let t = self.tiles[i];
                        if !t.has_mine && t.state == TileState::Hidden {
                            let ghost before = self.tiles@;
                            let ghost q_before = queue@;
                            let opened = Tile { state: TileState::Revealed, ..t };
                            self.tiles.set(i, opened);
                            proof {
                                lemma_count_update(before, unopened(), i as int, opened);
                                lemma_step_adjacent(rows as int, cols as int, r as int, c as int, k as int);
                                assert(before[i as int] == m.tiles[i as int]);
                                lemma_flood_extend(m, sr as int, sc as int, path, nr as int, nc as int);
                            }
                            if t.num_mines_around == 0 {
                                queue.push((nr, nc));
                                proof {
                                    assert(queue@[queue@.len() - 1] == (nr, nc));
                                }
                            }
                            proof {
                                assert forall|r2: int, c2: int|
                                    m.in_bounds(r2, c2) && #[trigger] tile_at(self.tiles@, cols as int, r2, c2) != m.tile(r2, c2)
                                        && m.tile(r2, c2).num_mines_around == 0 implies exists|j: int|
                                        0 <= j < queue@.len() && #[trigger] queue@[j] == (r2 as usize, c2 as usize) by {
                                    lemma_tile_at_update(before, rows as int, cols as int, r2, c2, i as int, opened);
                                    if r2 * cols + c2 == i {
                                        lemma_index_injective(rows as int, cols as int, r2, c2, nr as int, nc as int);
                                        assert(queue@[queue@.len() - 1] == (r2 as usize, c2 as usize));
                                    } else {
                                        let j = choose|j: int| 0 <= j < q_before.len() && #[trigger] q_before[j] == (r2 as usize, c2 as usize);
                                        assert(queue@[j] == q_before[j]);
                                    }
                                }
                                assert forall|r2: int, c2: int|
                                    m.in_bounds(r2, c2) && #[trigger] tile_at(self.tiles@, cols as int, r2, c2) != m.tile(r2, c2)
                                        implies m.reaches(sr as int, sc as int, r2, c2) by {
                                    lemma_tile_at_update(before, rows as int, cols as int, r2, c2, i as int, opened);
                                    if r2 * cols + c2 == i {
                                        lemma_index_injective(rows as int, cols as int, r2, c2, nr as int, nc as int);
                                    }
                                }
                                assert forall|j: int, r2: int, c2: int|
                                    #![trigger queue@[j], tile_at(self.tiles@, cols as int, r2, c2)]
                                    0 <= j < head - 1 && adjacent(rows as int, cols as int, queue@[j].0 as int, queue@[j].1 as int, r2, c2)
                                        implies !floodable(tile_at(self.tiles@, cols as int, r2, c2)) by {
                                    lemma_tile_at_update(before, rows as int, cols as int, r2, c2, i as int, opened);
                                    assert(queue@[j] == q_before[j]);
                                }
                                assert forall|k2: int|
                                    0 <= k2 < k + 1 && in_bounds(rows as int, cols as int, r + step_row(k2), c + step_col(k2))
                                        implies !floodable(#[trigger] tile_at(self.tiles@, cols as int, r + step_row(k2), c + step_col(k2))) by {
                                    lemma_tile_at_update(before, rows as int, cols as int, r + step_row(k2), c + step_col(k2), i as int, opened);
                                }
                                assert forall|j: int| 0 <= j < queue@.len() implies m.in_bounds((#[trigger] queue@[j]).0 as int, queue@[j].1 as int)
                                    && m.spreads(sr as int, sc as int, queue@[j].0 as int, queue@[j].1 as int)
                                    && m.reaches(sr as int, sc as int, queue@[j].0 as int, queue@[j].1 as int) by {
                                    if j < q_before.len() {
                                        assert(queue@[j] == q_before[j]);
                                    }
                                }
                            }
                        } else {
                            proof {
                                assert(!floodable(tile_at(self.tiles@, cols as int, r + step_row(k as int), c + step_col(k as int))));
                            }
                        }
                    },
                    None => {},
                }
                k = k + 1;
            }
            proof {
                assert forall|j: int, r2: int, c2: int|
                    #![trigger queue@[j], tile_at(self.tiles@, cols as int, r2, c2)]
                    0 <= j < head && adjacent(rows as int, cols as int, queue@[j].0 as int, queue@[j].1 as int, r2, c2)
                        implies !floodable(tile_at(self.tiles@, cols as int, r2, c2)) by {
                    if j == head - 1 {
                        let k2 = lemma_steps_cover(rows as int, cols as int, r as int, c as int, r2, c2);
                        assert(in_bounds(rows as int, cols as int, r + step_row(k2), c + step_col(k2)));
                    }
                }
            }
        }
        proof {
            let t = self.tiles@;
            let f = m.flooded(sr as int, sc as int);
            assert forall|i: int| 0 <= i < t.len() implies #[trigger] t[i] == f.tiles[i] by {
                lemma_index_split(m.rows, m.cols, i);
                let r = i / m.cols;
                let c = i % m.cols;
                if floodable(m.tiles[i]) && m.reaches(sr as int, sc as int, r, c) {
                    let path = choose|path: Seq<(int, int)>|
                        #[trigger] m.is_flood_path(sr as int, sc as int, path) && path.last() == (r, c);
                    lemma_flood_complete(m, t, queue@, sr as int, sc as int, path);
                    assert(tile_at(t, m.cols, r, c) != m.tile(r, c));
                }
            }
            assert(t =~= f.tiles);
            lemma_count_same(t, m.tiles, mined());
            lemma_count_same(t, m.tiles, flagged());
            assert forall|r: int, c: int| in_bounds(m.rows, m.cols, r, c) implies
                (#[trigger] tile_at(t, m.cols, r, c)).num_mines_around == mines_around(t, m.rows, m.cols, r, c) by {
                lemma_index(m.rows, m.cols, r, c);
                lemma_mines_around_same(t, m.tiles, m.rows, m.cols, r, c, 0);
                assert(tile_at(m.tiles, m.cols, r, c).num_mines_around == mines_around(m.tiles, m.rows, m.cols, r, c));
            }
        }
    }
}

} // verus!

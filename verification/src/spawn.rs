//! Placing a new tile on a random empty cell.
//!
//! The cell is chosen uniformly among the empty cells. The tile's value is
//! decided by one uniform draw from `0..SPAWN_SCALE`, read in ten-thousandths
//! against cumulative thresholds:
//!
//! | draw             | tile | share  |
//! |------------------|------|--------|
//! | `0..7830`        | `2`  | 0.7830 |
//! | `7830..8610`     | `4`  | 0.0780 |
//! | `8610..9728`     | `-1` | 0.1118 |
//! | `9728..10000`    | `-2` | 0.0272 |

use crate::board::{grid_of, has_tile, lemma_grids_equal, Board};
use rand::rngs::StdRng;
use rand::seq::IndexedRandom;
use rand::Rng;
use vstd::prelude::*;

verus! {

/// The number of equally likely draws that decide a new tile's value.
pub const SPAWN_SCALE: u32 = 10_000;

/// Draws below this give the tile `2`.
pub const TWO_BELOW: u32 = 7_830;

/// Draws below this, and not below `TWO_BELOW`, give the tile `4`.
pub const FOUR_BELOW: u32 = 8_610;

/// Draws below this, and not below `FOUR_BELOW`, give the multiplier `-1`;
/// the draws that remain give the multiplier `-2`.
pub const TIMES_ONE_BELOW: u32 = 9_728;

/// The generator that supplies the random draws.
#[verifier::external_type_specification]
#[verifier::external_body]
pub struct ExStdRng(StdRng);

/// The tile that the draw `roll` stands for.
pub open spec fn spawn_value(roll: int) -> int {
    if roll < TWO_BELOW {
        2
    } else if roll < FOUR_BELOW {
        4
    } else if roll < TIMES_ONE_BELOW {
        -1
    } else {
        -2
    }
}

/// `v` is one of the four tiles that a spawn can place.
pub open spec fn spawnable(v: int) -> bool {
    v == 2 || v == 4 || v == -1 || v == -2
}

/// The grid `g` with the cell at `(row, col)` replaced by `tile`.
pub open spec fn with_tile(g: Seq<Seq<int>>, row: int, col: int, tile: int) -> Seq<Seq<int>> {
    g.update(row, g[row].update(col, tile))
}

/// Some cell of the grid is empty.
pub open spec fn has_room(g: Seq<Seq<int>>) -> bool {
    has_tile(g, 0)
}

/// `after` is `before` with one empty cell filled by a spawnable tile.
pub open spec fn one_tile_added(before: Seq<Seq<int>>, after: Seq<Seq<int>>) -> bool {
    exists|r: int, c: int|
        0 <= r < 4 && 0 <= c < 4 && before[r][c] == 0 && spawnable(#[trigger] after[r][c])
            && after == with_tile(before, r, c, after[r][c])
}

/// What a spawn does to a grid: it fills one empty cell, or leaves a grid
/// without empty cells as it is.
pub open spec fn spawned(before: Seq<Seq<int>>, after: Seq<Seq<int>>) -> bool {
    if has_room(before) {
        one_tile_added(before, after)
    } else {
        after == before
    }
}

/// The empty cells among the first `n` cells of the grid in row-major order,
/// as `(row, column)` pairs in that order.
pub open spec fn empty_cells_upto(g: Seq<Seq<int>>, n: int) -> Seq<(int, int)>
    decreases n,
{
    if n <= 0 {
        Seq::empty()
    } else if g[(n - 1) / 4][(n - 1) % 4] == 0 {
        empty_cells_upto(g, n - 1).push(((n - 1) / 4, (n - 1) % 4))
    } else {
        empty_cells_upto(g, n - 1)
    }
}

/// `cell` lies on the grid and is empty.
pub open spec fn empty_at(g: Seq<Seq<int>>, cell: (usize, usize)) -> bool {
    cell.0 < 4 && cell.1 < 4 && g[cell.0 as int][cell.1 as int] == 0
}

/// The positions that a list of cells holds, as pairs of integers.
pub open spec fn positions(cells: Seq<(usize, usize)>) -> Seq<(int, int)> {
    Seq::new(cells.len(), |i: int| (cells[i].0 as int, cells[i].1 as int))
}

/// Every listed cell lies on the grid and is empty, and every empty cell
/// among the first `n` is listed.
proof fn lemma_empty_cells_upto(g: Seq<Seq<int>>, n: int)
    requires
        0 <= n <= 16,
    ensures
        forall|i: int|
            0 <= i < empty_cells_upto(g, n).len() ==> {
                let p = #[trigger] empty_cells_upto(g, n)[i];
                0 <= p.0 < 4 && 0 <= p.1 < 4 && 4 * p.0 + p.1 < n && g[p.0][p.1] == 0
            },
        forall|r: int, c: int|
            0 <= r < 4 && 0 <= c < 4 && 4 * r + c < n && #[trigger] g[r][c] == 0
                ==> empty_cells_upto(g, n).contains((r, c)),
    decreases n,
{
    if n > 0 {
        lemma_empty_cells_upto(g, n - 1);
        let prev = empty_cells_upto(g, n - 1);
        let cur = empty_cells_upto(g, n);
        let last = ((n - 1) / 4, (n - 1) % 4);
        assert forall|r: int, c: int|
            0 <= r < 4 && 0 <= c < 4 && 4 * r + c < n && #[trigger] g[r][c] == 0
            implies cur.contains((r, c)) by {
            if 4 * r + c < n - 1 {
                let i = choose|i: int| 0 <= i < prev.len() && prev[i] == (r, c);
                assert(cur[i] == (r, c));
            } else {
                assert(cur[cur.len() - 1] == last);
            }
        }
    }
}

/// Lists the empty cells of the board, row by row.
pub fn empty_cells(board: &Board) -> (cells: Vec<(usize, usize)>)
    ensures
        positions(cells@) == empty_cells_upto(grid_of(*board), 16),
        cells@.len() > 0 <==> has_room(grid_of(*board)),
        forall|i: int| 0 <= i < cells@.len() ==> empty_at(grid_of(*board), #[trigger] cells@[i]),
{
    let ghost g = grid_of(*board);
    let mut empties: Vec<(usize, usize)> = Vec::new();
    let mut r: usize = 0;
    while r < 4
        invariant
            r <= 4,
            g == grid_of(*board),
            positions(empties@) == empty_cells_upto(g, 4 * r),
        decreases 4 - r,
    {
        let mut c: usize = 0;
        while c < 4
            invariant
                r < 4,
                c <= 4,
                g == grid_of(*board),
                positions(empties@) == empty_cells_upto(g, 4 * r + c),
            decreases 4 - c,
        {
            if board[r][c] == 0 {
                empties.push((r, c));
            }
            c += 1;
        }
        r += 1;
    }
    proof {
        lemma_empty_cells_upto(g, 16);
        let all = empty_cells_upto(g, 16);
        assert forall|i: int| 0 <= i < empties@.len() implies empty_at(
            g,
            #[trigger] empties@[i],
        ) by {
            assert(g[all[i].0][all[i].1] == 0);
        }
        if empties@.len() > 0 {
            assert(g[all[0].0][all[0].1] == 0);
        }
    }
    empties
}

/// The tile that the draw `roll` stands for.
pub fn tile_for_roll(roll: u32) -> (tile: i32)
    ensures
        tile == spawn_value(roll as int),
        spawnable(tile as int),
{
    if roll < TWO_BELOW {
        2
    } else if roll < FOUR_BELOW {
        4
    } else if roll < TIMES_ONE_BELOW {
        -1
    } else {
        -2
    }
}

/// Puts the tile that `roll` stands for on the cell at `(row, col)`.
pub fn place_tile(board: &mut Board, row: usize, col: usize, roll: u32)
    requires
        row < 4,
        col < 4,
    ensures
        grid_of(*final(board)) == with_tile(
            grid_of(*old(board)),
            row as int,
            col as int,
            spawn_value(roll as int),
        ),
{
    let tile = tile_for_roll(roll);
    board[row][col] = tile;
    proof {
        lemma_grids_equal(
            grid_of(*board),
            with_tile(grid_of(*old(board)), row as int, col as int, tile as int),
        );
    }
}

/// Calls `rand::seq::IndexedRandom::choose` on the slice of `cells`.
///
/// The contract claims what that method documents: it returns `None`
/// exactly when the slice is empty, and otherwise one of its elements.
/// Which element is not stated: it depends on the generator.
#[verifier::external_body]
fn choose_cell(cells: &Vec<(usize, usize)>, rng: &mut StdRng) -> (picked: Option<(usize, usize)>)
    ensures
        picked is None <==> cells@.len() == 0,
        picked matches Some(cell) ==> cells@.contains(cell),
{
    cells.choose(rng).copied()
}

/// Calls `rand::Rng::random_range` with the range `..bound`.
///
/// The contract claims what that method documents: the number returned lies
/// in the range. The method panics on an empty range, which `requires`
/// leaves out.
#[verifier::external_body]
fn random_below(rng: &mut StdRng, bound: u32) -> (n: u32)
    requires
        bound > 0,
    ensures
        n < bound,
{
    rng.random_range(..bound)
}

/// Places one new tile on an empty cell chosen at random; a board without
/// an empty cell stays as it is.
pub fn spawn_tile(board: &mut Board, rng: &mut StdRng)
    ensures
        spawned(grid_of(*old(board)), grid_of(*final(board))),
{
    let empties = empty_cells(board);
    if empties.is_empty() {
        return ;
    }
    match choose_cell(&empties, rng) {
        Some((r, c)) => {
            let roll = random_below(rng, SPAWN_SCALE);
            place_tile(board, r, c, roll);
            proof {
                let after = grid_of(*board);
                assert(after[r as int][c as int] == spawn_value(roll as int));
            }
        },
        None => {},
    }
}

} // verus!

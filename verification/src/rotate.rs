//! Rotating a board by quarter turns.
//!
//! Every move direction is reduced to one slide toward the bottom edge by
//! turning the board first and turning it back afterwards.

use crate::board::{
    grid_of, has_tile, is_grid, lemma_grids_equal, playable_grid, playable_tile, valid_grid,
    valid_tile, Board,
};
use vstd::prelude::*;

verus! {

/// The grid turned clockwise by 90 degrees: the left column, read from the
/// bottom, becomes the top row.
pub open spec fn quarter_turn(g: Seq<Seq<int>>) -> Seq<Seq<int>> {
    Seq::new(4, |r: int| Seq::new(4, |c: int| g[3 - c][r]))
}

/// The grid turned clockwise by `k` quarter turns; only `k` modulo 4 counts.
pub open spec fn rotated(g: Seq<Seq<int>>, k: int) -> Seq<Seq<int>> {
    let q = k % 4;
    if q == 0 {
        g
    } else if q == 1 {
        quarter_turn(g)
    } else if q == 2 {
        quarter_turn(quarter_turn(g))
    } else {
        quarter_turn(quarter_turn(quarter_turn(g)))
    }
}

/// A turned grid is a grid.
pub proof fn lemma_rotated_is_grid(g: Seq<Seq<int>>, k: int)
    requires
        is_grid(g),
    ensures
        is_grid(rotated(g, k)),
{
}

/// Four quarter turns bring every grid back to itself.
pub proof fn lemma_full_turn(g: Seq<Seq<int>>)
    requires
        is_grid(g),
    ensures
        quarter_turn(quarter_turn(quarter_turn(quarter_turn(g)))) == g,
{
    lemma_grids_equal(quarter_turn(quarter_turn(quarter_turn(quarter_turn(g)))), g);
}

/// Turning by zero quarter turns changes nothing.
pub proof fn lemma_rotate_zero(g: Seq<Seq<int>>)
    ensures
        rotated(g, 0) == g,
{
}

/// Turning by `j` and then by `k` quarter turns is turning by `j + k`.
pub proof fn lemma_rotate_compose(g: Seq<Seq<int>>, j: int, k: int)
    requires
        is_grid(g),
    ensures
        rotated(rotated(g, j), k) == rotated(g, j + k),
{
    lemma_full_turn(g);
    lemma_full_turn(quarter_turn(g));
    lemma_full_turn(quarter_turn(quarter_turn(g)));
}

/// Turning by `k` and then by `(4 - k) mod 4` quarter turns gives back the
/// grid one started with.
pub proof fn lemma_rotate_inverse(g: Seq<Seq<int>>, k: int)
    requires
        is_grid(g),
    ensures
        rotated(rotated(g, k), (4 - k) % 4) == g,
{
    lemma_rotate_compose(g, k, (4 - k) % 4);
}

/// Turning a grid moves its cells and changes none: the turned grid holds
/// `v` exactly when the grid does.
pub proof fn lemma_rotated_has_tile(g: Seq<Seq<int>>, k: int, v: int)
    requires
        is_grid(g),
    ensures
        has_tile(rotated(g, k), v) <==> has_tile(g, v),
{
    let t = rotated(g, k);
    let q = k % 4;
    if has_tile(g, v) {
        let (r, c) = choose|r: int, c: int| 0 <= r < 4 && 0 <= c < 4 && #[trigger] g[r][c] == v;
        if q == 1 {
            assert(t[c][3 - r] == v);
        } else if q == 2 {
            assert(t[3 - r][3 - c] == v);
        } else if q == 3 {
            assert(t[3 - c][r] == v);
        }
    }
}

/// What holds of every cell of a grid holds of every cell of the turned
/// grid.
pub proof fn lemma_rotated_cells(g: Seq<Seq<int>>, k: int, holds: spec_fn(int) -> bool)
    requires
        is_grid(g),
        forall|r: int, c: int| 0 <= r < 4 && 0 <= c < 4 ==> holds(#[trigger] g[r][c]),
    ensures
        forall|r: int, c: int| 0 <= r < 4 && 0 <= c < 4 ==> holds(#[trigger] rotated(g, k)[r][c]),
{
}

/// Turning a grid of the tile domain gives a grid of the tile domain.
pub proof fn lemma_rotated_valid(g: Seq<Seq<int>>, k: int)
    requires
        is_grid(g),
        valid_grid(g),
    ensures
        valid_grid(rotated(g, k)),
{
    lemma_rotated_cells(g, k, |v: int| valid_tile(v));
}

/// Turning a grid that a move can take gives a grid that a move can take.
pub proof fn lemma_rotated_playable(g: Seq<Seq<int>>, k: int)
    requires
        is_grid(g),
        playable_grid(g),
    ensures
        playable_grid(rotated(g, k)),
{
    lemma_rotated_cells(g, k, |v: int| playable_tile(v));
}

/// Turns the board clockwise by `k` quarter turns.
pub fn rotate(b: Board, k: usize) -> (out: Board)
    ensures
        grid_of(out) == rotated(grid_of(b), k as int),
{
    let mut r = [[0i32;4];4];
    let q = k % 4;
    if q == 0 {
        return b;
    }
    let mut i: usize = 0;
    while i < 4
        invariant
            i <= 4,
            1 <= q <= 3,
            forall|x: int, y: int|
                0 <= x < i && 0 <= y < 4 ==> (if q == 1 {
                    r[y][3 - x]
                } else if q == 2 {
                    r[3 - x][3 - y]
                } else {
                    r[3 - y][x]
                }) == #[trigger] b[x][y],
        decreases 4 - i,
    {
        let mut j: usize = 0;
        while j < 4
            invariant
                i < 4,
                j <= 4,
                1 <= q <= 3,
                forall|x: int, y: int|
                    (0 <= x < i && 0 <= y < 4) || (x == i && 0 <= y < j) ==> (if q == 1 {
                        r[y][3 - x]
                    } else if q == 2 {
                        r[3 - x][3 - y]
                    } else {
                        r[3 - y][x]
                    }) == #[trigger] b[x][y],
            decreases 4 - j,
        {
            if q == 1 {
                r[j][3 - i] = b[i][j];
            } else if q == 2 {
                r[3 - i][3 - j] = b[i][j];
            } else {
                r[3 - j][i] = b[i][j];
            }
            j += 1;
        }
        i += 1;
    }
    proof {
        lemma_grids_equal(grid_of(r), rotated(grid_of(b), k as int));
    }
    r
}

} // verus!

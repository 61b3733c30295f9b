//! The board, the tile domain and the board validator.

use vstd::arithmetic::power2::{lemma2_to64, lemma_pow2_pos, lemma_pow2_strictly_increases, pow2};
use vstd::prelude::*;

verus! {

/// A 4x4 grid of tiles, `board[row][column]`; row 0 is the top edge.
pub type Board = [[i32; 4]; 4];

/// The largest value tile; producing it wins the game.
pub const TILE_MAX: i32 = 65536;

/// The largest tile that a move can take. A merge multiplies a tile by four
/// at most, and a move holds eight merges at most, whose sum is its score:
/// thirty-two times this value is the most that fits in `i32`.
pub const TILE_LIMIT: i32 = 0x3ff_ffff;

/// `v` is two raised to some natural number.
pub open spec fn power_of_two(v: int) -> bool {
    exists|k: nat| v == #[trigger] pow2(k)
}

/// The mathematical model of a board: four rows of four integers.
pub open spec fn grid_of(b: Board) -> Seq<Seq<int>> {
    Seq::new(4, |r: int| Seq::new(4, |c: int| b[r][c] as int))
}

/// `g` has the shape of a board: four rows of four cells.
pub open spec fn is_grid(g: Seq<Seq<int>>) -> bool {
    g.len() == 4 && forall|r: int| 0 <= r < 4 ==> (#[trigger] g[r]).len() == 4
}

/// The cell of `g` at position `i` in row-major order.
pub open spec fn cell_at(g: Seq<Seq<int>>, i: int) -> int {
    g[i / 4][i % 4]
}

/// `v` belongs to the tile domain: empty, a value tile from 2 to 65536, or
/// one of the multipliers -1, -2, -4.
pub open spec fn valid_tile(v: int) -> bool {
    v == 0 || (2 <= v <= TILE_MAX && power_of_two(v)) || v == -1 || v == -2 || v == -4
}

/// Every cell of `g` belongs to the tile domain.
pub open spec fn valid_grid(g: Seq<Seq<int>>) -> bool {
    forall|r: int, c: int| 0 <= r < 4 && 0 <= c < 4 ==> valid_tile(#[trigger] g[r][c])
}

/// `v` is a tile that a move can take without leaving `i32`: no multiplier
/// stronger than four, no value above `TILE_LIMIT`. Every tile of the domain
/// is one.
pub open spec fn playable_tile(v: int) -> bool {
    -4 <= v <= TILE_LIMIT
}

/// Every cell of `g` is a tile that a move can take.
pub open spec fn playable_grid(g: Seq<Seq<int>>) -> bool {
    forall|r: int, c: int| 0 <= r < 4 && 0 <= c < 4 ==> playable_tile(#[trigger] g[r][c])
}

/// Position `i`, in row-major order, is the first whose cell lies outside
/// the tile domain.
pub open spec fn first_invalid_at(g: Seq<Seq<int>>, i: int) -> bool {
    &&& 0 <= i < 16
    &&& !valid_tile(cell_at(g, i))
    &&& forall|j: int| 0 <= j < i ==> valid_tile(#[trigger] cell_at(g, j))
}

/// Some cell of the grid holds `v`.
pub open spec fn has_tile(g: Seq<Seq<int>>, v: int) -> bool {
    exists|r: int, c: int| 0 <= r < 4 && 0 <= c < 4 && #[trigger] g[r][c] == v
}

/// A cell value outside the tile domain.
#[derive(Clone, Copy, Debug, PartialEq, Eq)]
pub struct InvalidTile {
    /// The offending value.
    pub value: i32,
}

/// The tile domain written out value by value.
pub proof fn lemma_tile_domain(v: int)
    ensures
        valid_tile(v) <==> (v == 0 || v == -1 || v == -2 || v == -4 || v == 2 || v == 4 || v == 8
            || v == 16 || v == 32 || v == 64 || v == 128 || v == 256 || v == 512 || v == 1024 || v
            == 2048 || v == 4096 || v == 8192 || v == 16384 || v == 32768 || v == 65536),
{
    if 2 <= v <= TILE_MAX {
        lemma_small_powers(v as i32);
    }
}

/// A grid of the tile domain is a grid that a move can take.
pub proof fn lemma_valid_grid_is_playable(g: Seq<Seq<int>>)
    requires
        valid_grid(g),
    ensures
        playable_grid(g),
{
}

/// Two grids that agree cell by cell are the same grid.
pub proof fn lemma_grids_equal(a: Seq<Seq<int>>, b: Seq<Seq<int>>)
    requires
        is_grid(a),
        is_grid(b),
        forall|r: int, c: int| 0 <= r < 4 && 0 <= c < 4 ==> #[trigger] a[r][c] == b[r][c],
    ensures
        a == b,
{
    assert forall|r: int| 0 <= r < 4 implies a[r] =~= b[r] by {
    }
    assert(a =~= b);
}

/// Two boards with the same model are the same board.
pub proof fn lemma_grid_of_injective(a: Board, b: Board)
    requires
        grid_of(a) == grid_of(b),
    ensures
        a == b,
{
    assert forall|r: int| 0 <= r < 4 implies a[r] =~= b[r] by {
        assert forall|c: int| 0 <= c < 4 implies a[r][c] == b[r][c] by {
            assert(grid_of(a)[r][c] == a[r][c] as int);
            assert(grid_of(b)[r][c] == b[r][c] as int);
        }
    }
    assert(a =~= b);
}

/// `v` is one of the powers of two from 1 to 2^30, written out.
spec fn listed_power(v: i32) -> bool {
    v == 0x1 || v == 0x2 || v == 0x4 || v == 0x8 || v == 0x10 || v == 0x20 || v == 0x40 || v == 0x80
        || v == 0x100 || v == 0x200 || v == 0x400 || v == 0x800 || v == 0x1000 || v == 0x2000 || v
        == 0x4000 || v == 0x8000 || v == 0x10000 || v == 0x20000 || v == 0x40000 || v == 0x80000
        || v == 0x100000 || v == 0x200000 || v == 0x400000 || v == 0x800000 || v == 0x1000000 || v
        == 0x2000000 || v == 0x4000000 || v == 0x8000000 || v == 0x10000000 || v == 0x20000000 || v
        == 0x40000000
}

/// The powers of two that fit in 32 bits with a sign are the listed ones.
proof fn lemma_small_powers(v: i32)
    requires
        v > 0,
    ensures
        power_of_two(v as int) <==> listed_power(v),
{
    lemma2_to64();
    if power_of_two(v as int) {
        let k = choose|k: nat| v == #[trigger] pow2(k);
        if k > 31 {
            lemma_pow2_strictly_increases(31, k);
        }
    }
}

/// Whether `value` is a positive power of two.
pub fn is_power_of_two(value: i32) -> (r: bool)
    ensures
        r == power_of_two(value as int),
{
    if value <= 0 {
        proof {
            assert forall|k: nat| value != #[trigger] pow2(k) by {
                lemma_pow2_pos(k);
            }
        }
        return false;
    }
    proof {
        lemma_small_powers(value);
        assert(value > 0 ==> ((value & ((value - 1) as i32)) == 0 <==> listed_power(value)))
            by (bit_vector);
    }
    (value & (value - 1)) == 0
}

/// Whether `tile` belongs to the tile domain.
pub fn is_valid_tile(tile: i32) -> (r: bool)
    ensures
        r == valid_tile(tile as int),
{
    tile == 0 || (2 <= tile && tile <= TILE_MAX && is_power_of_two(tile)) || tile == -1 || tile
        == -2 || tile == -4
}

/// Whether every cell of `board` is a tile that a move can take.
pub fn is_playable(board: &Board) -> (r: bool)
    ensures
        r == playable_grid(grid_of(*board)),
{
    let ghost g = grid_of(*board);
    let mut r: usize = 0;
    while r < 4
        invariant
            r <= 4,
            g == grid_of(*board),
            forall|x: int, y: int| 0 <= x < r && 0 <= y < 4 ==> playable_tile(#[trigger] g[x][y]),
        decreases 4 - r,
    {
        let mut c: usize = 0;
        while c < 4
            invariant
                r < 4,
                c <= 4,
                g == grid_of(*board),
                forall|x: int, y: int|
                    (0 <= x < r && 0 <= y < 4) || (x == r && 0 <= y < c) ==> playable_tile(
                        #[trigger] g[x][y],
                    ),
            decreases 4 - c,
        {
            let tile = board[r][c];
            assert(g[r as int][c as int] == tile);
            if tile < -4 || tile > TILE_LIMIT {
                return false;
            }
            c += 1;
        }
        r += 1;
    }
    true
}

/// Checks every cell of `board` against the tile domain, row by row, and
/// reports the first value that is outside it.
pub fn validate_board(board: &Board) -> (r: Result<(), InvalidTile>)
    ensures
        r is Ok <==> valid_grid(grid_of(*board)),
        r matches Err(e) ==> exists|i: int|
            #[trigger] first_invalid_at(grid_of(*board), i) && e.value == cell_at(
                grid_of(*board),
                i,
            ),
{
    let ghost g = grid_of(*board);
    let mut r: usize = 0;
    while r < 4
        invariant
            r <= 4,
            g == grid_of(*board),
            forall|j: int| 0 <= j < 4 * r ==> valid_tile(#[trigger] cell_at(g, j)),
        decreases 4 - r,
    {
        let mut c: usize = 0;
        while c < 4
            invariant
                r < 4,
                c <= 4,
                g == grid_of(*board),
                forall|j: int| 0 <= j < 4 * r + c ==> valid_tile(#[trigger] cell_at(g, j)),
            decreases 4 - c,
        {
            let tile = board[r][c];
            if !is_valid_tile(tile) {
                assert(first_invalid_at(g, 4 * r + c));
                return Err(InvalidTile { value: tile });
            }
            c += 1;
        }
        r += 1;
    }
    assert forall|a: int, b: int| 0 <= a < 4 && 0 <= b < 4 implies valid_tile(
        #[trigger] g[a][b],
    ) by {
        assert(g[a][b] == cell_at(g, 4 * a + b));
    }
    Ok(())
}

} // verus!

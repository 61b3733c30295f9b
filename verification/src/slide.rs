//! Sliding one column toward its last cell.
//!
//! A column is read from the bottom (index 3) to the top (index 0). Each
//! tile is paired with the next tile above it; a pair that merges is
//! replaced by one tile, and a merged tile takes part in no further merge
//! during the same slide.

use crate::board::{playable_tile, valid_tile, TILE_LIMIT, TILE_MAX};
use crate::merge::{
    all_filled, ints_of, lemma_merge_result_bounds, lemma_merge_result_domain,
    lemma_merge_result_nonzero, merge_result, merged_tile, try_merge,
};
use vstd::prelude::*;
use vstd::slice::slice_subrange;

verus! {

/// The integers that a column holds, top cell first.
pub open spec fn column_of(col: [i32; 4]) -> Seq<int> {
    Seq::new(4, |i: int| col[i] as int)
}

/// Every cell of the column is a tile that a move can take.
pub open spec fn playable_column(col: Seq<int>) -> bool {
    col.len() == 4 && forall|i: int| 0 <= i < 4 ==> playable_tile(#[trigger] col[i])
}

/// Every cell of the column belongs to the tile domain.
pub open spec fn valid_column(col: Seq<int>) -> bool {
    col.len() == 4 && forall|i: int| 0 <= i < 4 ==> valid_tile(#[trigger] col[i])
}

/// The index of the nearest tile above cell `r`, or -1 when every cell above
/// `r` is empty.
pub open spec fn next_tile(col: Seq<int>, r: int) -> int
    decreases r,
{
    if r <= 0 {
        -1
    } else if col[r - 1] != 0 {
        r - 1
    } else {
        next_tile(col, r - 1)
    }
}

/// No cell below `r` is empty.
pub open spec fn filled_below(col: Seq<int>, r: int) -> bool {
    forall|i: int| r < i < col.len() ==> col[i] != 0
}

/// The tile that the tile at `r` and the next tile above it merge into, if
/// there is a tile above and the pair merges.
pub open spec fn pair_merge(col: Seq<int>, r: int) -> Option<int> {
    let s = next_tile(col, r);
    if 0 <= s < r {
        merge_result(col[r], col[s], s + 1 == r, filled_below(col, r))
    } else {
        None
    }
}

/// The tiles that cells `0..=r` of the column leave behind after the slide,
/// the one nearest to the bottom first.
///
/// An empty cell is passed over. A tile that merges with the next tile above
/// it leaves the merged tile, and the slide goes on above that pair; any
/// other tile is left as it is, and the slide goes on with the cell above it.
/// (The guard on the merging arm restates that the next tile lies above `r`,
/// which shows that the recursion ends.)
pub open spec fn slide_tiles(col: Seq<int>, r: int) -> Seq<int>
    decreases r + 1,
{
    if r < 0 {
        Seq::empty()
    } else if col[r] == 0 {
        slide_tiles(col, r - 1)
    } else {
        let s = next_tile(col, r);
        match pair_merge(col, r) {
            Some(v) if 0 <= s < r => seq![v] + slide_tiles(col, s - 1),
            _ => seq![col[r]] + slide_tiles(col, r - 1),
        }
    }
}

/// The score that the merges among cells `0..=r` earn: the sum of the
/// merged tiles.
pub open spec fn slide_gain(col: Seq<int>, r: int) -> int
    decreases r + 1,
{
    if r < 0 {
        0
    } else if col[r] == 0 {
        slide_gain(col, r - 1)
    } else {
        let s = next_tile(col, r);
        match pair_merge(col, r) {
            Some(v) if 0 <= s < r => v + slide_gain(col, s - 1),
            _ => slide_gain(col, r - 1),
        }
    }
}

/// The column after the slide: the remaining tiles stacked on the bottom,
/// empty cells above them.
pub open spec fn slid_column(col: Seq<int>) -> Seq<int> {
    let tiles = slide_tiles(col, 3);
    Seq::new(
        4,
        |i: int|
            if 3 - i < tiles.len() {
                tiles[3 - i]
            } else {
                0
            },
    )
}

/// The score of sliding the whole column.
pub open spec fn slide_score(col: Seq<int>) -> int {
    slide_gain(col, 3)
}

/// `next_tile` finds `s` when the cells strictly between `s` and `r` are
/// empty and `s` is either a tile or the position above the column.
proof fn lemma_next_tile(col: Seq<int>, r: int, s: int)
    requires
        -1 <= s < r,
        forall|i: int| s < i < r ==> col[i] == 0,
        s >= 0 ==> col[s] != 0,
    ensures
        next_tile(col, r) == s,
    decreases r,
{
    if r > 0 && col[r - 1] == 0 {
        lemma_next_tile(col, r - 1, s);
    }
}

/// In a column without empty cells, the tile at `r` merges with the tile
/// directly above it.
pub open spec fn merges_with_above(col: Seq<int>, r: int) -> bool {
    merge_result(col[r], col[r - 1], true, true) is Some
}

/// Every merge, whatever the pair, yields a tile and not an empty cell.
proof fn lemma_merges_nonzero()
    ensures
        forall|near: int, far: int, adjacent: bool, settled: bool|
            (#[trigger] merge_result(near, far, adjacent, settled)) matches Some(v) ==> v != 0,
{
    assert forall|near: int, far: int, adjacent: bool, settled: bool|
        (#[trigger] merge_result(near, far, adjacent, settled)) matches Some(v) ==> v != 0 by {
        lemma_merge_result_nonzero(near, far, adjacent, settled);
    }
}

/// A column without an empty cell in which no tile merges with the tile
/// directly above it stays as it is, and earns nothing.
pub proof fn lemma_settled_column_is_fixed(col: Seq<int>)
    requires
        col.len() == 4,
        all_filled(col),
        forall|r: int| 1 <= r <= 3 ==> !merges_with_above(col, r),
    ensures
        slid_column(col) == col,
        slide_score(col) == 0,
{
    reveal_with_fuel(slide_tiles, 5);
    reveal_with_fuel(slide_gain, 5);
    reveal_with_fuel(next_tile, 4);
    assert(!merges_with_above(col, 3) && !merges_with_above(col, 2) && !merges_with_above(col, 1));
}

/// A slide that leaves the column as it was earns nothing.
pub proof fn lemma_unchanged_column_earns_nothing(col: Seq<int>)
    requires
        col.len() == 4,
        slid_column(col) == col,
    ensures
        slide_score(col) == 0,
{
    lemma_merges_nonzero();
    reveal_with_fuel(slide_tiles, 5);
    reveal_with_fuel(slide_gain, 5);
    reveal_with_fuel(next_tile, 4);
}

/// A slide that changes the column leaves its top cell empty.
pub proof fn lemma_changed_column_frees_top(col: Seq<int>)
    requires
        col.len() == 4,
        slid_column(col) != col,
    ensures
        slid_column(col)[0] == 0,
{
    lemma_merges_nonzero();
    reveal_with_fuel(slide_tiles, 5);
    reveal_with_fuel(next_tile, 4);
    if slid_column(col)[0] != 0 {
        assert(slid_column(col) =~= col);
    }
}

/// Sliding a column of the tile domain yields tiles of the domain or value
/// tiles up to four times the top value, and at most two merges score.
pub proof fn lemma_slid_column_domain(col: Seq<int>)
    requires
        valid_column(col),
    ensures
        forall|i: int| 0 <= i < 4 ==> merged_tile(#[trigger] slid_column(col)[i]),
        -8 <= slide_score(col) <= 8 * TILE_MAX,
{
    assert forall|near: int, far: int, adjacent: bool, settled: bool|
        valid_tile(near) && valid_tile(far) implies (#[trigger] merge_result(
            near,
            far,
            adjacent,
            settled,
        ) matches Some(v) ==> merged_tile(v) && -4 <= v <= 4 * TILE_MAX) by {
        lemma_merge_result_domain(near, far, adjacent, settled);
    }
    reveal_with_fuel(slide_tiles, 5);
    reveal_with_fuel(slide_gain, 5);
    reveal_with_fuel(next_tile, 4);
}

/// Sliding a column of tiles that a move can take yields tiles within four
/// times `TILE_LIMIT`, and a score within eight times `TILE_LIMIT`.
pub proof fn lemma_slid_column_bounds(col: Seq<int>)
    requires
        playable_column(col),
    ensures
        forall|i: int| 0 <= i < 4 ==> -6 <= #[trigger] slid_column(col)[i] <= 4 * TILE_LIMIT,
        -12 <= slide_score(col) <= 8 * TILE_LIMIT,
{
    assert forall|near: int, far: int, adjacent: bool, settled: bool|
        playable_tile(near) && playable_tile(far) implies (#[trigger] merge_result(
            near,
            far,
            adjacent,
            settled,
        ) matches Some(v) ==> -6 <= v <= 4 * TILE_LIMIT) by {
        lemma_merge_result_bounds(near, far, adjacent, settled);
    }
    reveal_with_fuel(slide_tiles, 5);
    reveal_with_fuel(slide_gain, 5);
    reveal_with_fuel(next_tile, 4);
}

/// Slides the tiles of `col` toward index 3 and merges compatible pairs.
/// Returns the new column and the score earned.
pub fn slide_column(col: [i32; 4]) -> (res: ([i32; 4], i32))
    requires
        playable_column(column_of(col)),
    ensures
        column_of(res.0) == slid_column(column_of(col)),
        res.1 == slide_score(column_of(col)),
{
    let ghost c = column_of(col);
    let mut out = [0i32;4];
    let mut w: i32 = 3;
    let mut score: i32 = 0;
    let mut r: i32 = 3;
    let ghost mut emitted: Seq<int> = Seq::empty();

    while r >= 0
        invariant
            -1 <= r <= w <= 3,
            c == column_of(col),
            playable_column(c),
            emitted.len() == 3 - w,
            forall|i: int| 0 <= i < emitted.len() ==> emitted[i] == out[3 - i],
            forall|j: int| 0 <= j <= w ==> out[j] == 0,
            slide_tiles(c, 3) == emitted + slide_tiles(c, r as int),
            slide_score(c) == score + slide_gain(c, r as int),
            r >= 2 ==> score == 0,
            r >= 0 ==> -6 <= score <= 4 * TILE_LIMIT,
            -12 <= score <= 8 * TILE_LIMIT,
        decreases r + 1,
    {
        if col[r as usize] == 0 {
            r -= 1;
            continue ;
        }
        let mut s: i32 = r - 1;
        while s >= 0 && col[s as usize] == 0
            invariant
                -1 <= s < r <= 3,
                c == column_of(col),
                forall|i: int| s < i < r ==> c[i] == 0,
            decreases s + 1,
        {
            s -= 1;
        }
        proof {
            lemma_next_tile(c, r as int, s as int);
        }
        let merged = if s >= 0 {
            let below = slice_subrange(col.as_slice(), (r + 1) as usize, 4);
            proof {
                assert(all_filled(ints_of(below@)) == filled_below(c, r as int)) by {
                    if all_filled(ints_of(below@)) {
                        assert forall|i: int| r < i < c.len() implies c[i] != 0 by {
                            assert(ints_of(below@)[i - r - 1] != 0);
                        }
                    }
                }
                lemma_merge_result_bounds(
                    c[r as int],
                    c[s as int],
                    s + 1 == r,
                    filled_below(c, r as int),
                );
            }
            try_merge(col[r as usize], col[s as usize], r == s + 1, below)
        } else {
            None
        };
        match merged {
            Some((tile, add)) => {
                out[w as usize] = tile;
                proof {
                    emitted = emitted.push(tile as int);
                }
                score += add;
                w -= 1;
                r = s - 1;
            },
            None => {
                out[w as usize] = col[r as usize];
                proof {
                    emitted = emitted.push(c[r as int]);
                }
                w -= 1;
                r -= 1;
            },
        }
    }
    (out, score)
}

} // verus!

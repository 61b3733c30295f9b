//! The rule that decides whether two tiles merge, and into what.

use crate::board::{lemma_tile_domain, playable_tile, valid_tile, TILE_LIMIT, TILE_MAX};
use vstd::prelude::*;

verus! {

/// The integers that a sequence of tiles holds.
pub open spec fn ints_of(s: Seq<i32>) -> Seq<int> {
    Seq::new(s.len(), |i: int| s[i] as int)
}

/// No cell of `cells` is empty.
pub open spec fn all_filled(cells: Seq<int>) -> bool {
    forall|i: int| 0 <= i < cells.len() ==> cells[i] != 0
}

/// One of the two tiles is a value tile and the other a multiplier.
pub open spec fn value_meets_multiplier(near: int, far: int) -> bool {
    (near > 0 && far < 0) || (near < 0 && far > 0)
}

/// The tile that the pair `(near, far)` merges into, if it merges.
///
/// `near` is the tile closer to the edge that the tiles slide toward, `far`
/// the next tile behind it. `adjacent` says that no empty cell separates
/// them, `settled` that no cell between `near` and the edge is empty.
///
/// Two equal value tiles below the top value add up. Two equal multipliers
/// below the cap of four double. A value tile and a multiplier combine into
/// the value times the multiplier's magnitude, but only when they touch and
/// `near` already rests against the tiles at the edge.
pub open spec fn merge_result(near: int, far: int, adjacent: bool, settled: bool) -> Option<int> {
    if near > 0 && far > 0 && near == far && near < TILE_MAX {
        Some(near + far)
    } else if near < 0 && far < 0 && near == far && near > -4 {
        Some(2 * near)
    } else if value_meets_multiplier(near, far) && adjacent && settled {
        Some(
            if near > 0 {
                near * (-far)
            } else {
                far * (-near)
            },
        )
    } else {
        None
    }
}

/// What a merge of two tiles of the domain can produce: a tile of the
/// domain, or a value tile up to four times the top value.
pub open spec fn merged_tile(v: int) -> bool {
    valid_tile(v) || v == 2 * TILE_MAX || v == 4 * TILE_MAX
}

/// A merge of two tiles of the domain never yields an empty cell, and stays
/// within four times the top value.
pub proof fn lemma_merge_result_domain(near: int, far: int, adjacent: bool, settled: bool)
    requires
        valid_tile(near),
        valid_tile(far),
    ensures
        merge_result(near, far, adjacent, settled) matches Some(v) ==> v != 0 && merged_tile(v),
{
    lemma_tile_domain(near);
    lemma_tile_domain(far);
    if let Some(v) = merge_result(near, far, adjacent, settled) {
        lemma_tile_domain(v);
    }
}

/// A merge of two tiles that a move can take stays within four times
/// `TILE_LIMIT`.
pub proof fn lemma_merge_result_bounds(near: int, far: int, adjacent: bool, settled: bool)
    requires
        playable_tile(near),
        playable_tile(far),
    ensures
        merge_result(near, far, adjacent, settled) matches Some(v) ==> -6 <= v <= 4 * TILE_LIMIT,
{
    if value_meets_multiplier(near, far) {
        assert(near > 0 && -4 <= far < 0 ==> 0 < near * (-far) <= 4 * near) by (nonlinear_arith);
        assert(far > 0 && -4 <= near < 0 ==> 0 < far * (-near) <= 4 * far) by (nonlinear_arith);
    }
}

/// A value tile meets a multiplier exactly when the product of the two
/// tiles is negative.
pub proof fn lemma_negative_product(near: int, far: int)
    ensures
        value_meets_multiplier(near, far) <==> near * far < 0,
{
    assert(value_meets_multiplier(near, far) <==> near * far < 0) by (nonlinear_arith);
}

/// A merge never yields an empty cell.
pub proof fn lemma_merge_result_nonzero(near: int, far: int, adjacent: bool, settled: bool)
    ensures
        merge_result(near, far, adjacent, settled) matches Some(v) ==> v != 0,
{
    if value_meets_multiplier(near, far) {
        assert(near > 0 && far < 0 ==> near * (-far) > 0) by (nonlinear_arith);
        assert(near < 0 && far > 0 ==> far * (-near) > 0) by (nonlinear_arith);
    }
}

/// Two multipliers at the cap of four never merge, wherever they stand; two
/// multipliers of one merge into a multiplier of two, and two of two into
/// one of four.
pub proof fn lemma_multiplier_cap(adjacent: bool, settled: bool)
    ensures
        merge_result(-4, -4, adjacent, settled) is None,
        merge_result(-1, -1, adjacent, settled) == Some(-2int),
        merge_result(-2, -2, adjacent, settled) == Some(-4int),
{
}

/// Whether every cell of `cells` holds a tile.
pub fn none_empty(cells: &[i32]) -> (r: bool)
    ensures
        r == all_filled(ints_of(cells@)),
{
    let mut i: usize = 0;
    while i < cells.len()
        invariant
            i <= cells.len(),
            forall|j: int| 0 <= j < i ==> ints_of(cells@)[j] != 0,
        decreases cells.len() - i,
    {
        if cells[i] == 0 {
            assert(ints_of(cells@)[i as int] == 0);
            return false;
        }
        i += 1;
    }
    true
}

/// Applies the merge rule to the pair `(a, b)`, where `a` is the tile closer
/// to the edge, and returns the merged tile together with the score it
/// earns, which is the merged tile's value.
///
/// `below` holds the cells between `a` and the edge.
pub fn try_merge(a: i32, b: i32, adjacent: bool, below: &[i32]) -> (out: Option<(i32, i32)>)
    requires
        playable_tile(a as int),
        playable_tile(b as int),
    ensures
        out is Some <==> merge_result(a as int, b as int, adjacent, all_filled(ints_of(below@)))
            is Some,
        out matches Some(pair) ==> Some(pair.0 as int) == merge_result(
            a as int,
            b as int,
            adjacent,
            all_filled(ints_of(below@)),
        ) && pair.1 == pair.0,
{
    if a > 0 && b > 0 && a == b && a < TILE_MAX {
        return Some((a + b, a + b));
    }
    if a < 0 && b < 0 && a == b && a > -4 {
        return Some((a * 2, a * 2));
    }
    if ((a > 0 && b < 0) || (a < 0 && b > 0)) && adjacent && none_empty(below) {
        let num = if a > 0 { a } else { b };
        let mul = if a < 0 { a } else { b };
        assert(0 < num * (-mul) <= 4 * TILE_LIMIT) by (nonlinear_arith)
            requires
                -4 <= mul < 0,
                0 < num <= TILE_LIMIT,
        ;
        let v = num * (-mul);
        return Some((v, v));
    }
    None
}

} // verus!

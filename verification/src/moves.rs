//! The model of a move: what sliding toward an edge makes of a grid, what
//! it earns and how the game stands afterwards, with the laws that hold of
//! every move.

use crate::board::{
    has_tile, is_grid, lemma_grids_equal, playable_grid, valid_grid, TILE_LIMIT, TILE_MAX,
};
use crate::merge::merged_tile;
use crate::rotate::{
    lemma_rotate_compose, lemma_rotate_inverse, lemma_rotated_cells, lemma_rotated_has_tile,
    lemma_rotated_is_grid, lemma_rotated_valid, rotated,
};
use crate::slide::{
    lemma_changed_column_frees_top, lemma_settled_column_is_fixed, lemma_slid_column_bounds,
    lemma_slid_column_domain, lemma_unchanged_column_earns_nothing, merges_with_above,
    playable_column, slid_column, slide_score, valid_column,
};
use crate::spawn::has_room;
use vstd::prelude::*;

verus! {

/// The edge toward which a move slides the tiles.
#[derive(Clone, Copy, Debug, PartialEq, Eq)]
pub enum Action {
    /// Toward row 0.
    Up,
    /// Toward row 3.
    Down,
    /// Toward column 0.
    Left,
    /// Toward column 3.
    Right,
}

/// How the game stands after a move.
#[derive(Clone, Copy, Debug, PartialEq, Eq)]
pub enum Status {
    /// The game goes on.
    Continue,
    /// The move produced the top value tile.
    Victory,
    /// The move changed nothing, and no move in any direction would.
    Defeat,
}

/// Why a move was refused.
#[derive(Clone, Copy, Debug, PartialEq, Eq)]
pub enum StepError {
    /// The board is not four rows of four cells.
    Shape,
    /// The direction code is not one of 0, 1, 2, 3.
    Direction,
}

/// The number of clockwise quarter turns that bring the edge of `a` to the
/// bottom.
pub open spec fn turns(a: Action) -> int {
    match a {
        Action::Down => 0,
        Action::Right => 1,
        Action::Up => 2,
        Action::Left => 3,
    }
}

/// The direction that a code stands for: 0 is down, 1 right, 2 up, 3 left.
pub open spec fn action_of(code: int) -> Action {
    if code == 0 {
        Action::Down
    } else if code == 1 {
        Action::Right
    } else if code == 2 {
        Action::Up
    } else {
        Action::Left
    }
}

/// The number that reports a status: 1 for victory, -1 for defeat, 0 to go
/// on.
pub open spec fn status_code(s: Status) -> int {
    match s {
        Status::Victory => 1,
        Status::Defeat => -1,
        Status::Continue => 0,
    }
}

impl Action {
    /// The number of clockwise quarter turns that bring this edge to the
    /// bottom.
    pub fn quarter_turns(self) -> (k: usize)
        ensures
            k == turns(self),
    {
        match self {
            Action::Down => 0,
            Action::Up => 2,
            Action::Left => 3,
            Action::Right => 1,
        }
    }

    /// The direction that `code` stands for.
    pub fn from_code(code: u8) -> (r: Result<Action, StepError>)
        ensures
            code < 4 ==> r == Ok::<Action, StepError>(action_of(code as int)),
            code >= 4 ==> r == Err::<Action, StepError>(StepError::Direction),
    {
        match code {
            0 => Ok(Action::Down),
            1 => Ok(Action::Right),
            2 => Ok(Action::Up),
            3 => Ok(Action::Left),
            _ => Err(StepError::Direction),
        }
    }
}

impl Status {
    /// The number that reports this status.
    pub fn code(self) -> (c: i8)
        ensures
            c == status_code(self),
    {
        match self {
            Status::Victory => 1,
            Status::Defeat => -1,
            Status::Continue => 0,
        }
    }
}

/// Column `c` of the grid, top cell first.
pub open spec fn column(g: Seq<Seq<int>>, c: int) -> Seq<int> {
    Seq::new(4, |r: int| g[r][c])
}

/// The grid with every column slid toward the bottom.
pub open spec fn slid_grid(g: Seq<Seq<int>>) -> Seq<Seq<int>> {
    Seq::new(4, |r: int| Seq::new(4, |c: int| slid_column(column(g, c))[r]))
}

/// The score that sliding the first `n` columns earns.
pub open spec fn grid_score_upto(g: Seq<Seq<int>>, n: int) -> int
    decreases n,
{
    if n <= 0 {
        0
    } else {
        grid_score_upto(g, n - 1) + slide_score(column(g, n - 1))
    }
}

/// The score that sliding all four columns earns.
pub open spec fn grid_score(g: Seq<Seq<int>>) -> int {
    grid_score_upto(g, 4)
}

/// The grid after the tiles slid toward the edge of `a`, before any new
/// tile is placed.
pub open spec fn moved_grid(g: Seq<Seq<int>>, a: Action) -> Seq<Seq<int>> {
    rotated(slid_grid(rotated(g, turns(a))), (4 - turns(a)) % 4)
}

/// The score that the move toward the edge of `a` earns.
pub open spec fn move_score(g: Seq<Seq<int>>, a: Action) -> int {
    grid_score(rotated(g, turns(a)))
}

/// No move in any direction changes the grid.
pub open spec fn stuck(g: Seq<Seq<int>>) -> bool {
    forall|a: Action| #[trigger] moved_grid(g, a) == g
}

/// How the game stands after the move toward the edge of `a`: victory when
/// the slide produced the top value tile, else defeat when the grid is
/// stuck, else the game goes on.
pub open spec fn status_after(g: Seq<Seq<int>>, a: Action) -> Status {
    if has_tile(moved_grid(g, a), TILE_MAX as int) {
        Status::Victory
    } else if stuck(g) {
        Status::Defeat
    } else {
        Status::Continue
    }
}

/// Sliding the columns of a grid that a move can take earns a score that
/// fits in `i32`, whatever the number of columns slid.
pub proof fn lemma_grid_score_bounds(w: Seq<Seq<int>>, n: int)
    requires
        is_grid(w),
        playable_grid(w),
        0 <= n <= 4,
    ensures
        -48 <= grid_score_upto(w, n) <= 32 * TILE_LIMIT,
{
    reveal_with_fuel(grid_score_upto, 5);
    assert forall|c: int| 0 <= c < 4 implies playable_column(#[trigger] column(w, c)) by {}
    lemma_slid_column_bounds(column(w, 0));
    lemma_slid_column_bounds(column(w, 1));
    lemma_slid_column_bounds(column(w, 2));
    lemma_slid_column_bounds(column(w, 3));
}

/// A slide that changes no column changes nothing; one that changes a
/// column leaves an empty cell in the top row.
proof fn lemma_slid_grid_cases(w: Seq<Seq<int>>)
    requires
        is_grid(w),
    ensures
        slid_grid(w) == w ==> grid_score(w) == 0,
        slid_grid(w) != w ==> has_room(slid_grid(w)),
{
    let s = slid_grid(w);
    reveal_with_fuel(grid_score_upto, 5);
    if s == w {
        assert forall|c: int| 0 <= c < 4 implies slide_score(column(w, c)) == 0 by {
            assert(slid_column(column(w, c)) =~= column(w, c));
            lemma_unchanged_column_earns_nothing(column(w, c));
        }
    } else {
        if forall|c: int| 0 <= c < 4 ==> slid_column(#[trigger] column(w, c)) == column(w, c) {
            lemma_grids_equal(s, w);
        }
        let c = choose|c: int| 0 <= c < 4 && slid_column(#[trigger] column(w, c)) != column(w, c);
        lemma_changed_column_frees_top(column(w, c));
        assert(s[0][c] == 0);
    }
}

/// Turning the moved grid toward the bottom again shows the slid grid, and
/// the move changes the grid exactly when the slide changes the turned grid.
proof fn lemma_move_undone(g: Seq<Seq<int>>, a: Action)
    requires
        is_grid(g),
    ensures
        rotated(moved_grid(g, a), turns(a)) == slid_grid(rotated(g, turns(a))),
        moved_grid(g, a) == g <==> slid_grid(rotated(g, turns(a))) == rotated(g, turns(a)),
{
    let k = turns(a);
    let back = (4 - k) % 4;
    let w = rotated(g, k);
    let s = slid_grid(w);
    lemma_rotated_is_grid(g, k);
    lemma_rotate_compose(s, back, k);
    lemma_rotate_inverse(g, k);
}

/// A move that leaves the grid as it was earns nothing.
pub proof fn lemma_unchanged_move_earns_nothing(g: Seq<Seq<int>>, a: Action)
    requires
        is_grid(g),
        moved_grid(g, a) == g,
    ensures
        move_score(g, a) == 0,
{
    let k = turns(a);
    let w = rotated(g, k);
    lemma_rotated_is_grid(g, k);
    lemma_move_undone(g, a);
    lemma_slid_grid_cases(w);
}

/// A move that changes the grid leaves room for a new tile.
pub proof fn lemma_changed_move_leaves_room(g: Seq<Seq<int>>, a: Action)
    requires
        is_grid(g),
        moved_grid(g, a) != g,
    ensures
        has_room(moved_grid(g, a)),
{
    let k = turns(a);
    let w = rotated(g, k);
    let s = slid_grid(w);
    lemma_rotated_is_grid(g, k);
    lemma_move_undone(g, a);
    lemma_slid_grid_cases(w);
    lemma_rotated_has_tile(s, (4 - k) % 4, 0);
}

/// In the grid turned toward the edge of `a`, no tile merges with the tile
/// directly above it.
pub open spec fn no_merge_toward(g: Seq<Seq<int>>, a: Action) -> bool {
    forall|c: int, r: int|
        0 <= c < 4 && 1 <= r <= 3 ==> !#[trigger] merges_with_above(
            column(rotated(g, turns(a)), c),
            r,
        )
}

/// A grid without an empty cell in which no two neighbouring tiles merge,
/// in whatever direction, is stuck.
pub proof fn lemma_full_grid_without_merges_is_stuck(g: Seq<Seq<int>>)
    requires
        is_grid(g),
        !has_room(g),
        forall|a: Action| #[trigger] no_merge_toward(g, a),
    ensures
        stuck(g),
{
    assert forall|a: Action| #[trigger] moved_grid(g, a) == g by {
        let k = turns(a);
        let w = rotated(g, k);
        let s = slid_grid(w);
        lemma_rotated_is_grid(g, k);
        lemma_rotated_has_tile(g, k, 0);
        assert(no_merge_toward(g, a));
        assert forall|c: int| 0 <= c < 4 implies slid_column(#[trigger] column(w, c)) == column(
            w,
            c,
        ) by {
            lemma_settled_column_is_fixed(column(w, c));
        }
        assert(s == w) by {
            lemma_grids_equal(s, w);
        }
        lemma_move_undone(g, a);
    }
}

/// On a grid without an empty cell, without two neighbouring tiles that
/// merge and without the top value tile, every move is a defeat: the grid
/// stays as it is and nothing is earned.
pub proof fn lemma_full_grid_without_merges_is_defeat(g: Seq<Seq<int>>, a: Action)
    requires
        is_grid(g),
        !has_room(g),
        forall|d: Action| #[trigger] no_merge_toward(g, d),
        !has_tile(g, TILE_MAX as int),
    ensures
        status_after(g, a) == Status::Defeat,
        moved_grid(g, a) == g,
        move_score(g, a) == 0,
{
    lemma_full_grid_without_merges_is_stuck(g);
    lemma_stuck_grid_is_defeat(g, a);
}

/// A move that produces the top value tile is a victory, whether or not a
/// new tile follows.
pub proof fn lemma_top_tile_wins(g: Seq<Seq<int>>, a: Action)
    requires
        has_tile(moved_grid(g, a), TILE_MAX as int),
    ensures
        status_after(g, a) == Status::Victory,
{
}

/// On a grid that no move changes and that holds no top value tile, every
/// move is a defeat: the grid stays as it is and nothing is earned.
pub proof fn lemma_stuck_grid_is_defeat(g: Seq<Seq<int>>, a: Action)
    requires
        is_grid(g),
        stuck(g),
        !has_tile(g, TILE_MAX as int),
    ensures
        status_after(g, a) == Status::Defeat,
        moved_grid(g, a) == g,
        move_score(g, a) == 0,
{
    lemma_unchanged_move_earns_nothing(g, a);
}

/// A move on a grid of the tile domain yields tiles of the domain or value
/// tiles up to four times the top value, and a score that fits.
pub proof fn lemma_moved_grid_domain(g: Seq<Seq<int>>, a: Action)
    requires
        is_grid(g),
        valid_grid(g),
    ensures
        is_grid(moved_grid(g, a)),
        forall|r: int, c: int|
            0 <= r < 4 && 0 <= c < 4 ==> merged_tile(#[trigger] moved_grid(g, a)[r][c]),
        -32 <= move_score(g, a) <= 32 * TILE_MAX,
{
    let k = turns(a);
    let w = rotated(g, k);
    lemma_rotated_is_grid(g, k);
    lemma_rotated_valid(g, k);
    reveal_with_fuel(grid_score_upto, 5);
    assert forall|c: int| 0 <= c < 4 implies valid_column(#[trigger] column(w, c)) by {}
    lemma_slid_column_domain(column(w, 0));
    lemma_slid_column_domain(column(w, 1));
    lemma_slid_column_domain(column(w, 2));
    lemma_slid_column_domain(column(w, 3));
    lemma_rotated_cells(slid_grid(w), (4 - k) % 4, |v: int| merged_tile(v));
}

} // verus!

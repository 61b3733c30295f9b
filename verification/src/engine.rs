//! One move of the game: turn the board, slide its columns, turn it back,
//! place a new tile when the board changed, and say how the game stands.

use crate::board::{
    grid_of, has_tile, is_grid, lemma_grid_of_injective, lemma_grids_equal, lemma_tile_domain,
    playable_grid, valid_grid, valid_tile, Board, TILE_MAX,
};
use crate::moves::{
    action_of, column, grid_score_upto, lemma_changed_move_leaves_room, lemma_grid_score_bounds,
    move_score, moved_grid, slid_grid, status_after, status_code, stuck, Action, Status,
    StepError,
};
use crate::rotate::{lemma_rotated_playable, rotate};
use crate::slide::{column_of, slid_column, slide_column};
use crate::spawn::{one_tile_added, spawn_tile, spawnable, with_tile};
use rand::rngs::StdRng;
use vstd::prelude::*;

verus! {

/// The grid that a list of rows holds.
pub open spec fn rows_of(rows: Seq<Vec<i32>>) -> Seq<Seq<int>> {
    Seq::new(rows.len(), |r: int| Seq::new(rows[r]@.len(), |c: int| rows[r]@[c] as int))
}

/// The grid without any tile.
pub open spec fn empty_grid() -> Seq<Seq<int>> {
    Seq::new(4, |r: int| Seq::new(4, |c: int| 0int))
}

/// The `i`-th direction in the order up, down, left, right.
pub fn idx_to_action(i: usize) -> (a: Action)
    requires
        i < 4,
    ensures
        a == (if i == 0 {
            Action::Up
        } else if i == 1 {
            Action::Down
        } else if i == 2 {
            Action::Left
        } else {
            Action::Right
        }),
{
    [Action::Up, Action::Down, Action::Left, Action::Right][i]
}

/// Slides the board toward the edge of `action`, without placing a new
/// tile. Returns the new board, the score earned, and whether the new board
/// holds the top value tile.
pub fn single_step(board: &Board, action: Action) -> (res: (Board, i32, bool))
    requires
        playable_grid(grid_of(*board)),
    ensures
        grid_of(res.0) == moved_grid(grid_of(*board), action),
        res.1 == move_score(grid_of(*board), action),
        res.2 == has_tile(moved_grid(grid_of(*board), action), TILE_MAX as int),
{
    let rot = action.quarter_turns();
    let mut work = rotate(*board, rot);
    let ghost w0 = grid_of(work);
    proof {
        lemma_rotated_playable(grid_of(*board), rot as int);
    }
    let mut delta: i32 = 0;
    let mut c: usize = 0;
    while c < 4
        invariant
            c <= 4,
            is_grid(w0),
            playable_grid(w0),
            forall|r: int, cc: int|
                0 <= r < 4 && 0 <= cc < 4 ==> #[trigger] work[r][cc] == (if cc < c {
                    slid_column(column(w0, cc))[r]
                } else {
                    w0[r][cc]
                }),
            delta == grid_score_upto(w0, c as int),
        decreases 4 - c,
    {
        let col_in = [work[0][c], work[1][c], work[2][c], work[3][c]];
        proof {
            assert(column_of(col_in) =~= column(w0, c as int));
            lemma_grid_score_bounds(w0, c + 1);
        }
        let (col, add) = slide_column(col_in);
        delta += add;
        let ghost before = work;
        let mut r: usize = 0;
        while r < 4
            invariant
                r <= 4,
                c < 4,
                forall|rr: int, cc: int|
                    0 <= rr < 4 && 0 <= cc < 4 ==> #[trigger] work[rr][cc] == (if cc == c && rr
                        < r {
                        col[rr]
                    } else {
                        before[rr][cc]
                    }),
            decreases 4 - r,
        {
            work[r][c] = col[r];
            r += 1;
        }
        c += 1;
    }
    proof {
        lemma_grids_equal(grid_of(work), slid_grid(w0));
    }
    let next = rotate(work, (4 - rot) % 4);
    let victory = contains_tile(&next, TILE_MAX);
    (next, delta, victory)
}

/// Whether some cell of the board holds `tile`.
pub fn contains_tile(board: &Board, tile: i32) -> (found: bool)
    ensures
        found == has_tile(grid_of(*board), tile as int),
{
    let ghost g = grid_of(*board);
    let mut r: usize = 0;
    while r < 4
        invariant
            r <= 4,
            g == grid_of(*board),
            forall|x: int, y: int| 0 <= x < r && 0 <= y < 4 ==> #[trigger] g[x][y] != tile,
        decreases 4 - r,
    {
        let mut c: usize = 0;
        while c < 4
            invariant
                r < 4,
                c <= 4,
                g == grid_of(*board),
                forall|x: int, y: int|
                    (0 <= x < r && 0 <= y < 4) || (x == r && 0 <= y < c) ==> #[trigger] g[x][y]
                        != tile,
            decreases 4 - c,
        {
            if board[r][c] == tile {
                assert(g[r as int][c as int] == tile);
                return true;
            }
            c += 1;
        }
        r += 1;
    }
    false
}

/// Whether the two boards hold the same tiles in the same cells.
pub fn boards_equal(a: &Board, b: &Board) -> (same: bool)
    ensures
        same == (grid_of(*a) == grid_of(*b)),
        same == (*a == *b),
{
    let mut r: usize = 0;
    while r < 4
        invariant
            r <= 4,
            forall|x: int, y: int| 0 <= x < r && 0 <= y < 4 ==> #[trigger] a[x][y] == b[x][y],
        decreases 4 - r,
    {
        let mut c: usize = 0;
        while c < 4
            invariant
                r < 4,
                c <= 4,
                forall|x: int, y: int|
                    (0 <= x < r && 0 <= y < 4) || (x == r && 0 <= y < c) ==> #[trigger] a[x][y]
                        == b[x][y],
            decreases 4 - c,
        {
            if a[r][c] != b[r][c] {
                proof {
                    assert(grid_of(*a)[r as int][c as int] != grid_of(*b)[r as int][c as int]);
                }
                return false;
            }
            c += 1;
        }
        r += 1;
    }
    proof {
        lemma_grids_equal(grid_of(*a), grid_of(*b));
        lemma_grid_of_injective(*a, *b);
    }
    true
}

/// Whether no move in any direction changes the board.
pub fn is_stuck(board: &Board) -> (r: bool)
    requires
        playable_grid(grid_of(*board)),
    ensures
        r == stuck(grid_of(*board)),
{
    let ghost g = grid_of(*board);
    let mut d: usize = 0;
    while d < 4
        invariant
            d <= 4,
            g == grid_of(*board),
            playable_grid(g),
            d > 0 ==> moved_grid(g, Action::Up) == g,
            d > 1 ==> moved_grid(g, Action::Down) == g,
            d > 2 ==> moved_grid(g, Action::Left) == g,
            d > 3 ==> moved_grid(g, Action::Right) == g,
        decreases 4 - d,
    {
        let action = idx_to_action(d);
        let (next, _, _) = single_step(board, action);
        if !boards_equal(&next, board) {
            return false;
        }
        d += 1;
    }
    proof {
        assert forall|a: Action| #[trigger] moved_grid(g, a) == g by {
            match a {
                Action::Up => {},
                Action::Down => {},
                Action::Left => {},
                Action::Right => {},
            }
        }
    }
    true
}

/// Plays one move toward the edge of `action`: slides the tiles, places a
/// new tile when the slide changed the board, and says how the game stands.
/// Returns the new board, the score earned, and the status.
pub fn play_move(board: &Board, action: Action, rng: &mut StdRng) -> (res: (Board, i32, Status))
    requires
        playable_grid(grid_of(*board)),
    ensures
        res.1 == move_score(grid_of(*board), action),
        res.2 == status_after(grid_of(*board), action),
        moved_grid(grid_of(*board), action) == grid_of(*board) ==> res.0 == *board,
        moved_grid(grid_of(*board), action) != grid_of(*board) ==> one_tile_added(
            moved_grid(grid_of(*board), action),
            grid_of(res.0),
        ),
{
    let (mut next, delta, victory) = single_step(board, action);
    let moved = !boards_equal(&next, board);
    if moved {
        proof {
            lemma_changed_move_leaves_room(grid_of(*board), action);
        }
        spawn_tile(&mut next, rng);
    }
    let dead = !moved && is_stuck(board);
    let status = if victory {
        Status::Victory
    } else if dead {
        Status::Defeat
    } else {
        Status::Continue
    };
    (next, delta, status)
}

/// Reads a board from a list of rows, which must be four rows of four
/// cells.
pub fn parse_board(rows: &Vec<Vec<i32>>) -> (r: Result<Board, StepError>)
    ensures
        r is Ok <==> is_grid(rows_of(rows@)),
        r matches Ok(b) ==> grid_of(b) == rows_of(rows@),
        r matches Err(e) ==> e == StepError::Shape,
{
    let ghost g = rows_of(rows@);
    if rows.len() != 4 {
        return Err(StepError::Shape);
    }
    let mut board = [[0i32;4];4];
    let mut r: usize = 0;
    while r < 4
        invariant
            r <= 4,
            rows@.len() == 4,
            g == rows_of(rows@),
            forall|x: int| 0 <= x < r ==> (#[trigger] g[x]).len() == 4,
            forall|x: int, y: int| 0 <= x < r && 0 <= y < 4 ==> #[trigger] board[x][y] == g[x][y],
        decreases 4 - r,
    {
        if rows[r].len() != 4 {
            assert(g[r as int].len() != 4);
            return Err(StepError::Shape);
        }
        let mut c: usize = 0;
        while c < 4
            invariant
                r < 4,
                c <= 4,
                rows@.len() == 4,
                rows@[r as int]@.len() == 4,
                g == rows_of(rows@),
                forall|x: int, y: int|
                    (0 <= x < r && 0 <= y < 4) || (x == r && 0 <= y < c) ==> #[trigger] board[x][y]
                        == g[x][y],
            decreases 4 - c,
        {
            board[r][c] = rows[r][c];
            c += 1;
        }
        r += 1;
    }
    proof {
        lemma_grids_equal(grid_of(board), g);
    }
    Ok(board)
}

/// Writes the board as a list of four rows of four cells.
pub fn to_rows(board: &Board) -> (rows: Vec<Vec<i32>>)
    ensures
        rows_of(rows@) == grid_of(*board),
{
    let mut rows: Vec<Vec<i32>> = Vec::new();
    let mut r: usize = 0;
    while r < 4
        invariant
            r <= 4,
            rows@.len() == r,
            forall|x: int| 0 <= x < r ==> (#[trigger] rows@[x])@.len() == 4,
            forall|x: int, y: int|
                0 <= x < r && 0 <= y < 4 ==> (#[trigger] rows@[x]@[y]) == board[x][y],
        decreases 4 - r,
    {
        let mut row: Vec<i32> = Vec::new();
        let mut c: usize = 0;
        while c < 4
            invariant
                r < 4,
                c <= 4,
                row@.len() == c,
                forall|y: int| 0 <= y < c ==> #[trigger] row@[y] == board[r as int][y],
            decreases 4 - c,
        {
            row.push(board[r][c]);
            c += 1;
        }
        rows.push(row);
        r += 1;
    }
    proof {
        lemma_grids_equal(rows_of(rows@), grid_of(*board));
    }
    rows
}

/// Plays one move on the board given as a list of rows, in the direction
/// that `direction` stands for: 0 is down, 1 right, 2 up, 3 left.
///
/// Returns the new board, the score earned and the status code: 1 for
/// victory, -1 for defeat, 0 to go on. A board that is not four rows of four
/// cells is refused, and after that a direction code above 3.
pub fn step(board: &Vec<Vec<i32>>, direction: u8, rng: &mut StdRng) -> (res: Result<
    (Vec<Vec<i32>>, i32, i8),
    StepError,
>)
    requires
        is_grid(rows_of(board@)) && direction < 4 ==> playable_grid(rows_of(board@)),
    ensures
        !is_grid(rows_of(board@)) ==> res == Err::<(Vec<Vec<i32>>, i32, i8), StepError>(
            StepError::Shape,
        ),
        is_grid(rows_of(board@)) && direction >= 4 ==> res == Err::<
            (Vec<Vec<i32>>, i32, i8),
            StepError,
        >(StepError::Direction),
        is_grid(rows_of(board@)) && direction < 4 ==> res is Ok,
        res matches Ok(out) ==> {
            let g = rows_of(board@);
            let a = action_of(direction as int);
            &&& is_grid(rows_of(out.0@))
            &&& out.1 == move_score(g, a)
            &&& out.2 == status_code(status_after(g, a))
            &&& moved_grid(g, a) == g ==> rows_of(out.0@) == g
            &&& moved_grid(g, a) != g ==> one_tile_added(moved_grid(g, a), rows_of(out.0@))
        },
{
    let start = match parse_board(board) {
        Ok(b) => b,
        Err(_) => {
            return Err(StepError::Shape);
        },
    };
    let action = match Action::from_code(direction) {
        Ok(a) => a,
        Err(_) => {
            return Err(StepError::Direction);
        },
    };
    let (next, delta, status) = play_move(&start, action, rng);
    Ok((to_rows(&next), delta, status.code()))
}

/// Starts a game: an empty board on which two tiles are placed at random.
pub fn init(rng: &mut StdRng) -> (rows: Vec<Vec<i32>>)
    ensures
        is_grid(rows_of(rows@)),
        valid_grid(rows_of(rows@)),
        exists|first: Seq<Seq<int>>| #[trigger]
            one_tile_added(empty_grid(), first) && one_tile_added(first, rows_of(rows@)),
{
    let mut board: Board = [[0i32;4];4];
    proof {
        lemma_grids_equal(grid_of(board), empty_grid());
    }
    spawn_tile(&mut board, rng);
    let ghost first = grid_of(board);
    proof {
        let (r, c) = choose|r: int, c: int|
            0 <= r < 4 && 0 <= c < 4 && empty_grid()[r][c] == 0 && spawnable(#[trigger] first[r][c])
                && first == with_tile(empty_grid(), r, c, first[r][c]);
        if r == 0 && c == 0 {
            assert(first[0][1] == 0);
        } else {
            assert(first[0][0] == 0);
        }
    }
    spawn_tile(&mut board, rng);
    proof {
        let last = grid_of(board);
        assert forall|r: int, c: int| 0 <= r < 4 && 0 <= c < 4 implies valid_tile(
            #[trigger] last[r][c],
        ) by {
            lemma_tile_domain(last[r][c]);
        }
    }
    to_rows(&board)
}

} // verus!

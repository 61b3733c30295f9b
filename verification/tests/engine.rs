use akioi_2048::{
    boards_equal, contains_tile, idx_to_action, init, is_playable, is_stuck, parse_board,
    play_move, single_step, step, to_rows, validate_board, Action, Board, Status, StepError,
    TILE_LIMIT,
};
use rand::rngs::StdRng;
use rand::SeedableRng;

fn rows(board: Board) -> Vec<Vec<i32>> {
    board.iter().map(|r| r.to_vec()).collect()
}

fn tiles(rows: &[Vec<i32>]) -> Vec<i32> {
    rows.iter().flatten().copied().filter(|&v| v != 0).collect()
}

/// Asserts that `after` is `before` with one spawnable tile on a cell that
/// was empty.
fn assert_one_tile_added(before: &[Vec<i32>], after: &[Vec<i32>]) {
    assert_eq!(after.len(), 4);
    let mut added = 0;
    for r in 0..4 {
        assert_eq!(after[r].len(), 4);
        for c in 0..4 {
            if after[r][c] != before[r][c] {
                added += 1;
                assert_eq!(before[r][c], 0);
                assert!([2, 4, -1, -2].contains(&after[r][c]));
            }
        }
    }
    assert_eq!(added, 1);
}

const MIXED: Board = [[2, 0, 0, 2], [4, 4, 0, 0], [0, 0, 0, 0], [-1, -1, 8, 8]];
const STUCK: Board = [[2, 4, 2, 4], [4, 2, 4, 2], [2, 4, 2, 4], [4, 2, 4, 2]];

// The package as a whole: a fresh game can be started, passes the
// validator, and takes a move in every direction.
#[test]
fn uv_sync_package() {
    let mut rng = StdRng::seed_from_u64(1);
    let board = init(&mut rng);
    let parsed = parse_board(&board).unwrap();
    assert_eq!(validate_board(&parsed), Ok(()));
    for direction in 0..4 {
        assert!(step(&board, direction, &mut rng).is_ok());
    }
}

// A fresh game holds exactly two tiles, each one that a spawn can place.
#[test]
fn test_init() {
    for seed in 0..100 {
        let mut rng = StdRng::seed_from_u64(seed);
        let board = init(&mut rng);
        assert_eq!(board.len(), 4);
        for row in &board {
            assert_eq!(row.len(), 4);
        }
        let placed = tiles(&board);
        assert_eq!(placed.len(), 2);
        for tile in placed {
            assert!([2, 4, -1, -2].contains(&tile));
        }
    }
}

#[test]
fn codes_map_to_directions() {
    assert_eq!(Action::from_code(0), Ok(Action::Down));
    assert_eq!(Action::from_code(1), Ok(Action::Right));
    assert_eq!(Action::from_code(2), Ok(Action::Up));
    assert_eq!(Action::from_code(3), Ok(Action::Left));
    assert_eq!(Action::from_code(4), Err(StepError::Direction));
    assert_eq!(Action::from_code(255), Err(StepError::Direction));
}

#[test]
fn directions_turn_their_edge_to_the_bottom() {
    assert_eq!(Action::Down.quarter_turns(), 0);
    assert_eq!(Action::Right.quarter_turns(), 1);
    assert_eq!(Action::Up.quarter_turns(), 2);
    assert_eq!(Action::Left.quarter_turns(), 3);
}

#[test]
fn indices_list_the_directions() {
    assert_eq!(idx_to_action(0), Action::Up);
    assert_eq!(idx_to_action(1), Action::Down);
    assert_eq!(idx_to_action(2), Action::Left);
    assert_eq!(idx_to_action(3), Action::Right);
}

#[test]
fn status_codes() {
    assert_eq!(Status::Victory.code(), 1);
    assert_eq!(Status::Defeat.code(), -1);
    assert_eq!(Status::Continue.code(), 0);
}

#[test]
fn slide_down() {
    assert_eq!(
        single_step(&MIXED, Action::Down),
        ([[0, 0, 0, 0], [2, 0, 0, 0], [4, 4, 0, 2], [-1, -1, 8, 8]], 0, false)
    );
}

#[test]
fn slide_up() {
    assert_eq!(
        single_step(&MIXED, Action::Up),
        ([[2, 4, 8, 2], [4, -1, 0, 8], [-1, 0, 0, 0], [0, 0, 0, 0]], 0, false)
    );
}

#[test]
fn slide_left() {
    assert_eq!(
        single_step(&MIXED, Action::Left),
        ([[4, 0, 0, 0], [8, 0, 0, 0], [0, 0, 0, 0], [-2, 16, 0, 0]], 26, false)
    );
}

#[test]
fn slide_right() {
    assert_eq!(
        single_step(&MIXED, Action::Right),
        ([[0, 0, 0, 4], [0, 0, 0, 8], [0, 0, 0, 0], [0, 0, -2, 16]], 26, false)
    );
}

#[test]
fn multipliers_in_the_bottom_row_multiply_the_tiles_above() {
    let board: Board = [[2, 4, 8, 16], [4, 2, 16, 8], [2, 4, 8, 16], [-4, -4, -4, -4]];
    assert_eq!(
        single_step(&board, Action::Down),
        ([[0, 0, 0, 0], [2, 4, 8, 16], [4, 2, 16, 8], [8, 16, 32, 64]], 120, false)
    );
    assert_eq!(
        single_step(&board, Action::Up),
        ([[2, 4, 8, 16], [4, 2, 16, 8], [8, 16, 32, 64], [0, 0, 0, 0]], 120, false)
    );
    assert_eq!(single_step(&board, Action::Left), (board, 0, false));
    assert_eq!(single_step(&board, Action::Right), (board, 0, false));
}

#[test]
fn single_step_reports_the_top_tile() {
    let board: Board = [[0; 4], [0; 4], [32768, 0, 0, 0], [32768, 2, 4, 8]];
    assert_eq!(
        single_step(&board, Action::Down),
        ([[0; 4], [0; 4], [0; 4], [65536, 2, 4, 8]], 65536, true)
    );
    assert_eq!(
        single_step(&board, Action::Up),
        ([[65536, 2, 4, 8], [0; 4], [0; 4], [0; 4]], 65536, true)
    );
    assert_eq!(single_step(&board, Action::Left), (board, 0, false));
    assert_eq!(
        single_step(&board, Action::Right),
        ([[0; 4], [0; 4], [0, 0, 0, 32768], [32768, 2, 4, 8]], 0, false)
    );
}

#[test]
fn board_with_three_rows_is_refused() {
    let mut rng = StdRng::seed_from_u64(3);
    let board = vec![vec![0; 4]; 3];
    assert_eq!(step(&board, 0, &mut rng), Err(StepError::Shape));
    assert_eq!(parse_board(&board), Err(StepError::Shape));
}

#[test]
fn ragged_board_is_refused() {
    let mut rng = StdRng::seed_from_u64(3);
    let board = vec![vec![0; 4], vec![0; 4], vec![0; 5], vec![0; 4]];
    assert_eq!(step(&board, 0, &mut rng), Err(StepError::Shape));
    let board = vec![vec![0; 4], vec![0; 4], vec![0; 4], vec![0; 3]];
    assert_eq!(step(&board, 1, &mut rng), Err(StepError::Shape));
    let board: Vec<Vec<i32>> = Vec::new();
    assert_eq!(step(&board, 1, &mut rng), Err(StepError::Shape));
    let board = vec![vec![0; 4]; 5];
    assert_eq!(step(&board, 1, &mut rng), Err(StepError::Shape));
}

#[test]
fn direction_nine_is_refused() {
    let mut rng = StdRng::seed_from_u64(9);
    assert_eq!(step(&rows(MIXED), 9, &mut rng), Err(StepError::Direction));
    assert_eq!(step(&rows(MIXED), 4, &mut rng), Err(StepError::Direction));
}

#[test]
fn shape_is_checked_before_direction() {
    let mut rng = StdRng::seed_from_u64(9);
    assert_eq!(step(&vec![vec![0; 4]; 3], 9, &mut rng), Err(StepError::Shape));
}

#[test]
fn rows_and_boards_convert_both_ways() {
    assert_eq!(parse_board(&rows(MIXED)), Ok(MIXED));
    assert_eq!(to_rows(&MIXED), rows(MIXED));
    assert_eq!(
        to_rows(&MIXED),
        vec![vec![2, 0, 0, 2], vec![4, 4, 0, 0], vec![0, 0, 0, 0], vec![-1, -1, 8, 8]]
    );
}

#[test]
fn move_that_changes_the_board_adds_one_tile() {
    for seed in 0..50 {
        let mut rng = StdRng::seed_from_u64(seed);
        let (board, delta, status) = step(&rows(MIXED), 3, &mut rng).unwrap();
        assert_eq!(delta, 26);
        assert_eq!(status, 0);
        let slid: Board = [[4, 0, 0, 0], [8, 0, 0, 0], [0, 0, 0, 0], [-2, 16, 0, 0]];
        assert_one_tile_added(&rows(slid), &board);
    }
}

#[test]
fn every_direction_code_slides_toward_its_edge() {
    let slid: [Board; 4] = [
        [[0, 0, 0, 0], [2, 0, 0, 0], [4, 4, 0, 2], [-1, -1, 8, 8]],
        [[0, 0, 0, 4], [0, 0, 0, 8], [0, 0, 0, 0], [0, 0, -2, 16]],
        [[2, 4, 8, 2], [4, -1, 0, 8], [-1, 0, 0, 0], [0, 0, 0, 0]],
        [[4, 0, 0, 0], [8, 0, 0, 0], [0, 0, 0, 0], [-2, 16, 0, 0]],
    ];
    let scores = [0, 26, 0, 26];
    for code in 0..4u8 {
        let mut rng = StdRng::seed_from_u64(7);
        let (board, delta, status) = step(&rows(MIXED), code, &mut rng).unwrap();
        assert_eq!(delta, scores[code as usize]);
        assert_eq!(status, 0);
        assert_one_tile_added(&rows(slid[code as usize]), &board);
    }
}

#[test]
fn producing_the_top_tile_is_a_victory() {
    let board: Board = [[0; 4], [0; 4], [32768, 0, 0, 0], [32768, 2, 4, 8]];
    for seed in 0..20 {
        let mut rng = StdRng::seed_from_u64(seed);
        let (next, delta, status) = step(&rows(board), 0, &mut rng).unwrap();
        assert_eq!(status, 1);
        assert_eq!(delta, 65536);
        assert_one_tile_added(&rows([[0; 4], [0; 4], [0; 4], [65536, 2, 4, 8]]), &next);
    }
}

#[test]
fn top_tile_on_an_unchanged_board_is_a_victory() {
    let mut board = STUCK;
    board[3][3] = 65536;
    let mut rng = StdRng::seed_from_u64(5);
    for code in 0..4 {
        assert_eq!(step(&rows(board), code, &mut rng), Ok((rows(board), 0, 1)));
    }
}

#[test]
fn stuck_board_is_a_defeat() {
    let mut rng = StdRng::seed_from_u64(11);
    for code in 0..4 {
        assert_eq!(step(&rows(STUCK), code, &mut rng), Ok((rows(STUCK), 0, -1)));
    }
    assert!(is_stuck(&STUCK));
}

#[test]
fn move_that_changes_nothing_adds_no_tile() {
    let board: Board = [[0; 4], [0; 4], [0; 4], [2, 4, 8, 16]];
    let mut rng = StdRng::seed_from_u64(13);
    assert_eq!(step(&rows(board), 0, &mut rng), Ok((rows(board), 0, 0)));
    assert_eq!(step(&rows(board), 1, &mut rng), Ok((rows(board), 0, 0)));
    assert_eq!(step(&rows(board), 3, &mut rng), Ok((rows(board), 0, 0)));
    assert!(!is_stuck(&board));
    let (next, delta, status) = step(&rows(board), 2, &mut rng).unwrap();
    assert_eq!((delta, status), (0, 0));
    assert_one_tile_added(&rows([[2, 4, 8, 16], [0; 4], [0; 4], [0; 4]]), &next);
}

#[test]
fn full_board_with_a_merge_left_is_not_stuck() {
    let mut board = STUCK;
    board[3][3] = 4;
    assert!(!is_stuck(&board));
    let mut rng = StdRng::seed_from_u64(17);
    let (next, delta, status) = step(&rows(board), 0, &mut rng).unwrap();
    assert_eq!((delta, status), (8, 0));
    assert_one_tile_added(
        &rows([[2, 4, 2, 0], [4, 2, 4, 4], [2, 4, 2, 2], [4, 2, 4, 8]]),
        &next,
    );
}

#[test]
fn board_with_one_gap_is_not_stuck() {
    let mut board = STUCK;
    board[3][3] = 0;
    assert!(!is_stuck(&board));
    let mut rng = StdRng::seed_from_u64(17);
    assert_eq!(step(&rows(board), 2, &mut rng), Ok((rows(board), 0, 0)));
    assert_eq!(step(&rows(board), 3, &mut rng), Ok((rows(board), 0, 0)));
    let (next, delta, status) = step(&rows(board), 1, &mut rng).unwrap();
    assert_eq!((delta, status), (0, 0));
    assert_one_tile_added(
        &rows([[2, 4, 2, 4], [4, 2, 4, 2], [2, 4, 2, 4], [0, 4, 2, 4]]),
        &next,
    );
}

#[test]
fn play_move_reports_the_status_as_a_variant() {
    let mut rng = StdRng::seed_from_u64(19);
    assert_eq!(play_move(&STUCK, Action::Left, &mut rng), (STUCK, 0, Status::Defeat));
    let board: Board = [[0; 4], [0; 4], [0; 4], [2, 4, 8, 16]];
    assert_eq!(play_move(&board, Action::Down, &mut rng), (board, 0, Status::Continue));
    let board: Board = [[0; 4], [0; 4], [32768, 0, 0, 0], [32768, 2, 4, 8]];
    let (next, delta, status) = play_move(&board, Action::Up, &mut rng);
    assert_eq!((delta, status), (65536, Status::Victory));
    assert_one_tile_added(&rows([[65536, 2, 4, 8], [0; 4], [0; 4], [0; 4]]), &rows(next));
}

#[test]
fn same_seed_gives_the_same_game() {
    let play = |seed: u64| {
        let mut rng = StdRng::seed_from_u64(seed);
        let mut board = init(&mut rng);
        let mut score = 0;
        for turn in 0..40u8 {
            let parsed = parse_board(&board).unwrap();
            if !is_playable(&parsed) {
                break;
            }
            let (next, delta, status) = step(&board, turn % 4, &mut rng).unwrap();
            board = next;
            score += delta;
            if status != 0 {
                break;
            }
        }
        (board, score)
    };
    assert_eq!(play(23), play(23));
}

#[test]
fn boards_compare_cell_by_cell() {
    assert!(boards_equal(&MIXED, &MIXED));
    let mut other = MIXED;
    other[3][3] = 16;
    assert!(!boards_equal(&MIXED, &other));
    assert!(!boards_equal(&MIXED, &STUCK));
}

#[test]
fn contains_tile_finds_a_value_anywhere() {
    assert!(contains_tile(&MIXED, 8));
    assert!(contains_tile(&MIXED, -1));
    assert!(contains_tile(&MIXED, 0));
    assert!(!contains_tile(&MIXED, 65536));
    assert!(!contains_tile(&STUCK, 0));
}

#[test]
fn largest_score_fits() {
    let row = [TILE_LIMIT, -4, TILE_LIMIT, -4];
    let board: Board = [row; 4];
    assert!(is_playable(&board));
    let (next, delta, victory) = single_step(&board, Action::Right);
    assert_eq!(delta, 2_147_483_616);
    assert_eq!(next, [[0, 0, 268_435_452, 268_435_452]; 4]);
    assert!(!victory);
}

#[test]
fn step_does_not_check_the_tile_domain() {
    let board: Board = [[3, 3, 0, 0], [0; 4], [0; 4], [131072, 0, 0, 0]];
    assert_eq!(validate_board(&board), Err(akioi_2048::InvalidTile { value: 3 }));
    let mut rng = StdRng::seed_from_u64(29);
    let (next, delta, status) = step(&rows(board), 3, &mut rng).unwrap();
    assert_eq!((delta, status), (6, 0));
    assert_one_tile_added(&rows([[6, 0, 0, 0], [0; 4], [0; 4], [131072, 0, 0, 0]]), &next);
}

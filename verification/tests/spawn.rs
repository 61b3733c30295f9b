use akioi_2048::{
    empty_cells, place_tile, spawn_tile, tile_for_roll, validate_board, Board, SPAWN_SCALE,
};
use rand::rngs::StdRng;
use rand::SeedableRng;

#[test]
fn rolls_map_to_tiles_by_threshold() {
    assert_eq!(tile_for_roll(0), 2);
    assert_eq!(tile_for_roll(7829), 2);
    assert_eq!(tile_for_roll(7830), 4);
    assert_eq!(tile_for_roll(8609), 4);
    assert_eq!(tile_for_roll(8610), -1);
    assert_eq!(tile_for_roll(9727), -1);
    assert_eq!(tile_for_roll(9728), -2);
    assert_eq!(tile_for_roll(9999), -2);
    assert_eq!(tile_for_roll(u32::MAX), -2);
}

#[test]
fn rolls_give_the_stated_shares() {
    assert_eq!(SPAWN_SCALE, 10_000);
    let mut twos = 0;
    let mut fours = 0;
    let mut times_one = 0;
    let mut times_two = 0;
    for roll in 0..SPAWN_SCALE {
        match tile_for_roll(roll) {
            2 => twos += 1,
            4 => fours += 1,
            -1 => times_one += 1,
            -2 => times_two += 1,
            other => panic!("unexpected tile {other}"),
        }
    }
    assert_eq!((twos, fours, times_one, times_two), (7830, 780, 1118, 272));
}

#[test]
fn empty_cells_are_listed_row_by_row() {
    let board: Board = [[2, 0, 4, 0], [0, 8, 8, 8], [2, 2, 2, 2], [4, 4, 0, -1]];
    assert_eq!(empty_cells(&board), vec![(0, 1), (0, 3), (1, 0), (3, 2)]);
    assert_eq!(empty_cells(&[[2; 4]; 4]), vec![]);
    assert_eq!(empty_cells(&[[0; 4]; 4]).len(), 16);
    assert_eq!(empty_cells(&[[0; 4]; 4])[5], (1, 1));
}

#[test]
fn placing_a_tile_changes_one_cell() {
    let mut board: Board = [[0; 4]; 4];
    place_tile(&mut board, 2, 1, 100);
    assert_eq!(board, [[0; 4], [0; 4], [0, 2, 0, 0], [0; 4]]);
    place_tile(&mut board, 0, 3, 9000);
    assert_eq!(board, [[0, 0, 0, -1], [0; 4], [0, 2, 0, 0], [0; 4]]);
    place_tile(&mut board, 3, 0, 8000);
    place_tile(&mut board, 3, 3, 9999);
    assert_eq!(board, [[0, 0, 0, -1], [0; 4], [0, 2, 0, 0], [4, 0, 0, -2]]);
}

#[test]
fn spawn_on_a_full_board_changes_nothing() {
    let full: Board = [[2, 4, 2, 4], [4, 2, 4, 2], [2, 4, 2, 4], [4, 2, 4, 2]];
    for seed in 0..20 {
        let mut rng = StdRng::seed_from_u64(seed);
        let mut board = full;
        spawn_tile(&mut board, &mut rng);
        assert_eq!(board, full);
    }
}

#[test]
fn spawn_fills_the_only_empty_cell() {
    let before: Board = [[2, 4, 2, 4], [4, 2, 0, 2], [2, 4, 2, 4], [4, 2, 4, 2]];
    for seed in 0..50 {
        let mut rng = StdRng::seed_from_u64(seed);
        let mut board = before;
        spawn_tile(&mut board, &mut rng);
        assert!([2, 4, -1, -2].contains(&board[1][2]));
        board[1][2] = 0;
        assert_eq!(board, before);
    }
}

#[test]
fn spawn_adds_exactly_one_tile_to_an_empty_cell() {
    let before: Board = [[2, 0, 0, 4], [0, 0, 8, 0], [0, -1, 0, 0], [16, 0, 0, -4]];
    for seed in 0..200 {
        let mut rng = StdRng::seed_from_u64(seed);
        let mut board = before;
        spawn_tile(&mut board, &mut rng);
        let mut changed = 0;
        for r in 0..4 {
            for c in 0..4 {
                if board[r][c] != before[r][c] {
                    changed += 1;
                    assert_eq!(before[r][c], 0);
                    assert!([2, 4, -1, -2].contains(&board[r][c]));
                }
            }
        }
        assert_eq!(changed, 1);
        assert_eq!(validate_board(&board), Ok(()));
    }
}

#[test]
fn spawn_fills_a_board_in_sixteen_rounds() {
    let mut rng = StdRng::seed_from_u64(16);
    let mut board: Board = [[0; 4]; 4];
    for placed in 1..=16 {
        spawn_tile(&mut board, &mut rng);
        assert_eq!(empty_cells(&board).len(), 16 - placed);
    }
    let full = board;
    spawn_tile(&mut board, &mut rng);
    assert_eq!(board, full);
}

#[test]
fn same_seed_gives_the_same_spawn() {
    let mut first: Board = [[0; 4]; 4];
    let mut second: Board = [[0; 4]; 4];
    let mut rng_a = StdRng::seed_from_u64(99);
    let mut rng_b = StdRng::seed_from_u64(99);
    for _ in 0..10 {
        spawn_tile(&mut first, &mut rng_a);
        spawn_tile(&mut second, &mut rng_b);
    }
    assert_eq!(first, second);
}

#[test]
fn spawned_values_follow_the_distribution() {
    let trials = 40_000;
    let mut rng = StdRng::seed_from_u64(2048);
    let mut counts = [0u32; 4];
    for _ in 0..trials {
        let mut board: Board = [[0; 4]; 4];
        spawn_tile(&mut board, &mut rng);
        let tile = board.iter().flatten().copied().find(|&v| v != 0).unwrap();
        match tile {
            2 => counts[0] += 1,
            4 => counts[1] += 1,
            -1 => counts[2] += 1,
            -2 => counts[3] += 1,
            other => panic!("unexpected tile {other}"),
        }
    }
    let expected = [0.783, 0.078, 0.1118, 0.0272];
    for i in 0..4 {
        let share = counts[i] as f64 / trials as f64;
        assert!((share - expected[i]).abs() < 0.01);
    }
}

#[test]
fn spawned_cells_are_spread_evenly() {
    let trials = 40_000;
    let mut rng = StdRng::seed_from_u64(4096);
    let mut counts = [[0u32; 4]; 4];
    for _ in 0..trials {
        let mut board: Board = [[0; 4]; 4];
        spawn_tile(&mut board, &mut rng);
        for r in 0..4 {
            for c in 0..4 {
                if board[r][c] != 0 {
                    counts[r][c] += 1;
                }
            }
        }
    }
    for r in 0..4 {
        for c in 0..4 {
            let share = counts[r][c] as f64 / trials as f64;
            assert!((share - 0.0625).abs() < 0.01);
        }
    }
}

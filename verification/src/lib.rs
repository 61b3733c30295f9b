//! A single-move engine for a 2048-style puzzle with multiplier tiles.
//!
//! The board is a 4x4 grid of signed integers: `0` is an empty cell, a
//! positive power of two is a value tile and `-1`, `-2`, `-4` are multiplier
//! tiles. One move slides every tile toward an edge, merges compatible
//! pairs, and, when the board changed, places one new random tile.
//!
//! - [`board`]: the board, its model as a grid of integers, the tile domain
//!   and the validator.
//! - [`rotate`]: quarter turns, which reduce every direction to a slide
//!   toward the bottom.
//! - [`merge`]: the rule that says which pairs of tiles merge.
//! - [`slide`]: the slide of one column.
//! - [`moves`]: what a move makes of a grid and how the game stands after
//!   it, with the laws of the game.
//! - [`spawn`]: the new tile, and the draws from the random generator.
//! - [`engine`]: the entry points `step` and `init`.
//!
//! Every function is verified against a contract over the grid model. The
//! random generator is the one part taken on trust: see [`spawn`].

pub mod board;
pub mod engine;
pub mod merge;
pub mod moves;
pub mod rotate;
pub mod slide;
pub mod spawn;

pub use board::{
    is_playable, is_power_of_two, is_valid_tile, validate_board, Board, InvalidTile, TILE_LIMIT,
    TILE_MAX,
};
pub use engine::{
    boards_equal, contains_tile, idx_to_action, init, is_stuck, parse_board, play_move,
    single_step, step, to_rows,
};
pub use merge::{none_empty, try_merge};
pub use moves::{Action, Status, StepError};
pub use rotate::rotate;
pub use slide::slide_column;
pub use spawn::{empty_cells, place_tile, spawn_tile, tile_for_roll, SPAWN_SCALE};

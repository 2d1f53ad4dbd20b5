//! The rules of Threes!: the board, the tile draw, the game, and the decisions of the bots and
//! of the terminal front end, each with a machine-checked contract.

pub mod board;
pub mod board_laws;
pub mod bot;
pub mod budget;
pub mod cache;
pub mod dice;
pub mod draw;
pub mod eval;
pub mod eval_laws;
pub mod expectimax;
pub mod forecast;
pub mod game;
pub mod game_laws;
pub mod logging;
pub mod plan;
pub mod probability;
pub mod ranking;
pub mod screen;
pub mod search;
pub mod search_laws;
pub mod session;
pub mod text;
pub mod tile;
pub mod tui;

pub use board::{Board, Direction, SIZE};
pub use game::{Game, GameSnapshot, MoveResult, NextTile, SpawnEvent};

//! A Xiangqi (Chinese chess) engine: board representation, pseudo-legal move
//! generation, check detection, a material + piece-square evaluator, Zobrist
//! hashing, principal-variation alpha-beta search with iterative deepening,
//! and an opening-book lookup keyed by Zobrist hashes.

pub mod board;
pub mod check;
pub mod constant;
pub mod engine;
pub mod eval;
pub mod movegen;
pub mod search;
pub mod zobrist;

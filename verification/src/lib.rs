//! Decision core of a two-player stone-placement game on a 19x19 grid
//! (five-in-a-row family): bitboards, board state, constant-time local
//! pattern classification through a precomputed table, candidate move
//! generation, a fixed-point score encoding, and an iterative-deepening
//! negamax search with cooperative cancellation.

pub mod bitboard;
pub mod board;
pub mod eval;
pub mod magic;
pub mod movegen;
pub mod score;
pub mod search;
pub mod types;

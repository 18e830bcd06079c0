//! A peg-solitaire (senku) board with a verified rules model and a
//! backtracking solver.
//!
//! The board holds a fixed square grid of cells, a score, and the history
//! of applied jump moves; `model` states what every operation does to a
//! mathematical image of that state, and `engine` searches depth-first for
//! a move sequence that reaches a target score.

pub mod board;
pub mod engine;
pub mod model;

//! Outer-Open Gomoku engine: a 15x15 five-in-a-row game whose board is kept as a
//! padded one-dimensional array, with a line-pattern scanner, a static evaluator and
//! a depth-limited negamax search with alpha-beta pruning.
pub mod board;
pub mod pattern;
pub mod eval;
pub mod search;

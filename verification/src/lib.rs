//! A connect-four core: the board with its gravity rule and win detection,
//! and a depth-limited negamax search over it.

pub mod grid;
pub mod lines;
pub mod board;
pub mod wins;
pub mod score;
pub mod order;
pub mod search;
pub mod pruning;
pub mod playable;
pub mod engine;
pub mod human;
pub mod game;

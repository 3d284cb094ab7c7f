//! Mini Shogi: the rules of a 5x6 shogi variant and the search that plays it.

pub mod piece;
pub mod game;
pub mod board;
pub mod action;
pub mod ai;
pub mod ai_minimax;
pub mod ai_random;
pub mod ai_monte_carlo;
mod random;
pub mod ai_sender;
pub mod controller;
pub mod progress_text;
